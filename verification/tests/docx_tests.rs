use docx_handlebars::archive::{pack, unpack, ArchiveMember};
use docx_handlebars::events::{gather_text, push_markup, rewrite_markup, EventKind, MarkupEvent};
use docx_handlebars::{DocxHandlebars, DocxHandlebarsError, DocxProcessor};

const CONTENT_TYPES: &str = "<Types><Override ContentType=\"application/vnd.openxmlformats-officedocument.wordprocessingml.document.main+xml\"/></Types>";

const BODY: &str = "<w:document><w:body><w:p><w:r><w:t>{{employee.name}} &amp; {{</w:t></w:r><w:r><w:t>company}}</w:t></w:r></w:p></w:body></w:document>";

fn member(name: &str, data: &[u8]) -> ArchiveMember {
    ArchiveMember { name: name.to_string(), data: data.to_vec() }
}

fn docx_members(body: &str) -> Vec<ArchiveMember> {
    vec![
        member("[Content_Types].xml", CONTENT_TYPES.as_bytes()),
        member("word/document.xml", body.as_bytes()),
        member("_rels/.rels", b"<Relationships/>"),
        member("word/styles.xml", b"<w:styles/>"),
    ]
}

fn docx_bytes(body: &str) -> Vec<u8> {
    pack(&docx_members(body), None).unwrap()
}

#[test]
fn test_create_processor() {
    let _processor = DocxHandlebars::new();
    assert!(true);
}

#[test]
fn test_default_implementations() {
    let _processor1 = DocxHandlebars::new();
    let _processor2 = DocxHandlebars::default();
    assert!(true);
}

#[test]
fn test_new_processor_holds_nothing() {
    assert_eq!(DocxProcessor::new().get_content(), "");
    assert_eq!(DocxProcessor::default().get_content(), "");
    assert_eq!(
        DocxProcessor::new().output_members("x"),
        vec![member("word/document.xml", b"x")]
    );
}

#[test]
fn test_load_from_bytes_takes_the_body_as_text() {
    let mut processor = DocxProcessor::new();
    assert_eq!(processor.load_from_bytes(&docx_bytes(BODY)), Ok(()));
    assert_eq!(processor.get_content(), BODY);
}

#[test]
fn test_load_from_bytes_rejects_a_body_that_is_not_utf8() {
    let mut members = docx_members(BODY);
    members[1] = member("word/document.xml", &[0x3c, 0x61, 0x2f, 0x3e, 0xff]);
    let mut processor = DocxProcessor::new();
    assert_eq!(
        processor.load_from_bytes(&pack(&members, None).unwrap()),
        Err(DocxHandlebarsError::Utf8(
            "word/document.xml is not valid UTF-8".to_string()
        ))
    );
    assert_eq!(processor.get_content(), "");
}

#[test]
fn test_load_from_bytes_rejects_what_is_no_archive() {
    let mut processor = DocxProcessor::new();
    processor.load_from_bytes(&docx_bytes(BODY)).unwrap();
    assert!(matches!(
        processor.load_from_bytes(b"not an archive, only some text"),
        Err(DocxHandlebarsError::Zip(_))
    ));
    assert_eq!(processor.get_content(), BODY);
}

#[test]
fn test_load_from_bytes_needs_a_body() {
    let members = vec![member("[Content_Types].xml", b"<Types/>")];
    let mut processor = DocxProcessor::new();
    assert_eq!(
        processor.load_from_bytes(&pack(&members, None).unwrap()),
        Err(DocxHandlebarsError::DocumentFormat(
            "无法找到 word/document.xml 文件".to_string()
        ))
    );
    assert_eq!(processor.get_content(), "");
}

#[test]
fn test_create_docx_with_content_keeps_every_other_member() {
    let mut processor = DocxProcessor::new();
    processor.load_from_bytes(&docx_bytes(BODY)).unwrap();
    let expected = vec![
        member("word/document.xml", "新内容".as_bytes()),
        member("[Content_Types].xml", CONTENT_TYPES.as_bytes()),
        member("_rels/.rels", b"<Relationships/>"),
        member("word/styles.xml", b"<w:styles/>"),
    ];
    assert_eq!(processor.output_members("新内容"), expected);
    let bytes = processor.create_docx_with_content("新内容").unwrap();
    assert_eq!(unpack(bytes).unwrap(), expected);
}

#[test]
fn test_extract_text_content_resolves_entities() {
    let mut processor = DocxProcessor::new();
    processor.load_from_bytes(&docx_bytes(BODY)).unwrap();
    assert_eq!(
        processor.extract_text_content(),
        Ok("{{employee.name}} & {{company}}".to_string())
    );
}

#[test]
fn test_gather_text_takes_text_runs_only() {
    assert_eq!(
        gather_text("<w:p><w:pPr>skip</w:pPr><w:r><w:t>a</w:t><w:tab/><w:t>b &lt; c</w:t></w:r></w:p>"),
        Ok("ab < c".to_string())
    );
    assert_eq!(gather_text(""), Ok(String::new()));
}

#[test]
fn test_gather_text_rejects_crossed_elements() {
    assert!(matches!(
        gather_text("<w:p><w:t>a</w:p></w:t>"),
        Err(DocxHandlebarsError::Xml(_))
    ));
}

#[test]
fn test_gather_text_rejects_an_unknown_entity_in_a_text_run() {
    assert!(matches!(
        gather_text("<w:t>&nosuch;</w:t>"),
        Err(DocxHandlebarsError::Xml(_))
    ));
    assert_eq!(gather_text("<w:x>&nosuch;</w:x>"), Ok(String::new()));
}

#[test]
fn test_process_template_in_xml_writes_the_body_out_again() {
    let mut processor = DocxProcessor::new();
    processor.load_from_bytes(&docx_bytes(BODY)).unwrap();
    assert_eq!(processor.process_template_in_xml("ignored"), Ok(BODY.to_string()));
}

#[test]
fn test_rewrite_markup_keeps_text_as_it_stands() {
    for doc in [
        "<w:t>a &gt; b &quot;c&quot;</w:t>",
        "<w:t>a &gt; b \"c\" 'd'</w:t>",
        "<w:x>a &gt; b \"c\"</w:x>",
        "<w:t>&nosuch;</w:t>",
    ] {
        assert_eq!(rewrite_markup(doc), Ok(doc.to_string()));
    }
}

#[test]
fn test_rewrite_markup_gives_the_document_back() {
    for doc in [
        "<a><b/></a>",
        "<w:p><w:br/><w:t>x &amp; y</w:t></w:p>",
        "<w:p/>",
        "",
    ] {
        assert_eq!(rewrite_markup(doc), Ok(doc.to_string()));
    }
}

#[test]
fn test_rewrite_markup_rejects_crossed_elements() {
    assert!(matches!(
        rewrite_markup("<a><b></a></b>"),
        Err(DocxHandlebarsError::Xml(_))
    ));
}

#[test]
fn test_renderer_renders_a_loaded_template() {
    let mut renderer = DocxHandlebars::new();
    assert_eq!(renderer.load_template_bytes(&docx_bytes(BODY)), Ok(()));
    let bytes = renderer
        .render("{\"employee\": {\"name\": \"陈小华\"}, \"company\": \"ABC\"}")
        .unwrap();
    let out = unpack(bytes).unwrap();
    assert_eq!(out.len(), 4);
    assert_eq!(
        out[0],
        member(
            "word/document.xml",
            "<w:document><w:body><w:p><w:r><w:t>陈小华 &amp; ABC</w:t></w:r><w:r><w:t></w:t></w:r></w:p></w:body></w:document>"
                .as_bytes()
        )
    );
    assert_eq!(out[3], member("word/styles.xml", b"<w:styles/>"));
}

#[test]
fn test_renderer_needs_a_template() {
    let renderer = DocxHandlebars::new();
    assert_eq!(renderer.render("{}"), Err(DocxHandlebarsError::TemplateNotLoaded));
}

#[test]
fn test_renderer_rejects_data_that_is_no_json() {
    let mut renderer = DocxHandlebars::new();
    renderer.load_template_bytes(&docx_bytes(BODY)).unwrap();
    assert!(matches!(
        renderer.render("{ invalid json }"),
        Err(DocxHandlebarsError::Json(_))
    ));
}

#[test]
fn test_renderer_extracts_the_variables() {
    let mut renderer = DocxHandlebars::new();
    renderer.load_template_bytes(&docx_bytes(BODY)).unwrap();
    assert_eq!(
        renderer.extract_template_variables(),
        Ok(vec!["employee.name".to_string(), "company".to_string()])
    );
}

#[test]
fn test_renderer_with_engine_uses_its_helpers() {
    let engine = docx_handlebars::evaluator::new_engine();
    let mut renderer = DocxHandlebars::with_engine(engine);
    renderer
        .load_template_bytes(&docx_bytes(
            "<w:p><w:t>{{#if (eq a 1)}}one{{/if}}</w:t></w:p>",
        ))
        .unwrap();
    let out = unpack(renderer.render("{\"a\": 1}").unwrap()).unwrap();
    assert_eq!(
        String::from_utf8(out[0].data.clone()).unwrap(),
        "<?xml version=\"1.0\" encoding=\"UTF-8\" standalone=\"yes\"?><w:document xmlns:w=\"http://schemas.openxmlformats.org/wordprocessingml/2006/main\"><w:body><w:p><w:r><w:t xml:space=\"preserve\">one</w:t></w:r></w:p></w:body></w:document>"
    );
}

#[test]
fn test_renderer_gives_the_variables_as_json() {
    let mut renderer = DocxHandlebars::new();
    renderer.load_template_bytes(&docx_bytes(BODY)).unwrap();
    assert_eq!(
        renderer.get_template_variables(),
        Ok("[\"employee.name\",\"company\"]".to_string())
    );
}

#[test]
fn test_unpack_reports_bytes_that_cannot_be_read() {
    let data = vec![0x61u8; 4096];
    let mut bytes = pack(&vec![member("a.txt", &data)], None).unwrap();
    let start = 30 + "a.txt".len();
    for b in bytes[start..start + 8].iter_mut() {
        *b = 0xff;
    }
    assert!(matches!(
        unpack(bytes.clone()),
        Err(DocxHandlebarsError::Io(_))
    ));
    let mut processor = DocxProcessor::new();
    assert!(matches!(
        processor.load_from_bytes(&bytes),
        Err(DocxHandlebarsError::Io(_))
    ));
}

fn markup_of(kind: EventKind, content: &str) -> String {
    let mut out = String::from("|");
    push_markup(&mut out, &MarkupEvent { kind, content: content.to_string() });
    out
}

#[test]
fn test_push_markup_puts_the_content_between_its_delimiters() {
    assert_eq!(markup_of(EventKind::Start, "a b=\"1\""), "|<a b=\"1\">");
    assert_eq!(markup_of(EventKind::End, "a"), "|</a>");
    assert_eq!(markup_of(EventKind::Empty, "a"), "|<a/>");
    assert_eq!(markup_of(EventKind::Text, "x &amp; y"), "|x &amp; y");
    assert_eq!(markup_of(EventKind::CData, "x<y"), "|<![CDATA[x<y]]>");
    assert_eq!(markup_of(EventKind::Comment, " c "), "|<!-- c -->");
    assert_eq!(
        markup_of(EventKind::Decl, "xml version=\"1.0\""),
        "|<?xml version=\"1.0\"?>"
    );
    assert_eq!(markup_of(EventKind::PI, "pi x"), "|<?pi x?>");
    assert_eq!(markup_of(EventKind::DocType, "html"), "|<!DOCTYPE html>");
    assert_eq!(markup_of(EventKind::Eof, "ignored"), "|");
}

#[test]
fn test_rewrite_markup_writes_every_kind_as_the_reader_gave_it() {
    for doc in [
        "<a><?pi x?><!-- c --><b/><![CDATA[x<y]]><e/><!DOCTYPE d><f/><g h=\"1\">t</g></a>",
        "<?xml version=\"1.0\"?><a></a>",
        "<w:t  xml:space=\"preserve\">a &lt; b</w:t><w:tab/><w:t>c</w:t>",
    ] {
        assert_eq!(rewrite_markup(doc), Ok(doc.to_string()));
    }
}

#[test]
fn test_new_renderer_is_not_strict_and_with_engine_keeps_the_engine() {
    let body = "<w:p><w:r><w:t>[{{missing}}]</w:t></w:r></w:p>";

    let mut lenient = DocxHandlebars::new();
    lenient.load_template_bytes(&docx_bytes(body)).unwrap();
    let out = unpack(lenient.render("{}").unwrap()).unwrap();
    assert_eq!(
        String::from_utf8(out[0].data.clone()).unwrap(),
        "<w:p><w:r><w:t>[]</w:t></w:r></w:p>"
    );

    let mut engine = docx_handlebars::evaluator::new_engine();
    engine.set_strict_mode(true);
    let mut strict = DocxHandlebars::with_engine(engine);
    strict.load_template_bytes(&docx_bytes(body)).unwrap();
    let out = unpack(strict.render("{}").unwrap()).unwrap();
    assert_eq!(String::from_utf8(out[0].data.clone()).unwrap(), body);
}

#[test]
fn test_render_reports_json_first() {
    let renderer = DocxHandlebars::new();
    assert!(matches!(
        renderer.render("not json"),
        Err(DocxHandlebarsError::Json(_))
    ));
    assert_eq!(renderer.render("{}"), Err(DocxHandlebarsError::TemplateNotLoaded));
}

fn written_by_the_markup_writer(event: quick_xml::events::Event) -> String {
    let mut writer = quick_xml::Writer::new(Vec::new());
    writer.write_event(event).unwrap();
    String::from_utf8(writer.into_inner()).unwrap()
}

#[test]
fn test_push_markup_agrees_with_the_markup_writer() {
    let cases = vec![
        (
            EventKind::Start,
            "a b=\"1\"",
            quick_xml::events::Event::Start(quick_xml::events::BytesStart::from_content(
                "a b=\"1\"",
                1,
            )),
        ),
        (
            EventKind::End,
            "a",
            quick_xml::events::Event::End(quick_xml::events::BytesEnd::new("a")),
        ),
        (
            EventKind::Empty,
            "w:br",
            quick_xml::events::Event::Empty(quick_xml::events::BytesStart::from_content(
                "w:br", 4,
            )),
        ),
        (
            EventKind::Text,
            "x &amp; y",
            quick_xml::events::Event::Text(quick_xml::events::BytesText::from_escaped(
                "x &amp; y",
            )),
        ),
        (
            EventKind::CData,
            "x<y",
            quick_xml::events::Event::CData(quick_xml::events::BytesCData::new("x<y")),
        ),
        (
            EventKind::Comment,
            " c ",
            quick_xml::events::Event::Comment(quick_xml::events::BytesText::from_escaped(" c ")),
        ),
        (
            EventKind::PI,
            "pi x",
            quick_xml::events::Event::PI(quick_xml::events::BytesPI::new("pi x")),
        ),
        (
            EventKind::DocType,
            "html",
            quick_xml::events::Event::DocType(quick_xml::events::BytesText::from_escaped(
                "html",
            )),
        ),
        (EventKind::Eof, "", quick_xml::events::Event::Eof),
    ];
    for (kind, content, event) in cases {
        let mut out = String::new();
        push_markup(&mut out, &MarkupEvent { kind, content: content.to_string() });
        assert_eq!(out, written_by_the_markup_writer(event));
    }
}
