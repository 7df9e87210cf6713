use docx_handlebars::segment::{serialize, tokenize, Segment};
use docx_handlebars::DocxHandlebarsError;

fn tag(raw: &str, is_start: bool, is_end: bool, is_empty: bool, name: &str) -> Segment {
    Segment::Tag {
        raw: raw.to_string(),
        is_start,
        is_end,
        is_empty,
        name: name.to_string(),
    }
}

fn literal(text: &str) -> Segment {
    Segment::Literal { text: text.to_string() }
}

#[test]
fn test_tokenize_splits_tags_and_text() {
    let segs = tokenize("<w:p><w:t>Hello</w:t><w:br/></w:p>").unwrap();
    assert_eq!(
        segs,
        vec![
            tag("<w:p>", true, false, false, "w:p"),
            tag("<w:t>", true, false, false, "w:t"),
            literal("Hello"),
            tag("</w:t>", false, true, false, "w:t"),
            tag("<w:br/>", false, false, true, "w:br"),
            tag("</w:p>", false, true, false, "w:p"),
        ]
    );
}

#[test]
fn test_tokenize_reads_the_name_before_attributes() {
    let segs = tokenize("<w:t xml:space=\"preserve\"> a </w:t>").unwrap();
    assert_eq!(
        segs[0],
        tag("<w:t xml:space=\"preserve\">", true, false, false, "w:t")
    );
    assert_eq!(segs[1], literal(" a "));
}

#[test]
fn test_tokenize_declaration_is_no_element() {
    let segs = tokenize("<?xml version=\"1.0\"?><a></a>").unwrap();
    assert_eq!(
        segs[0],
        tag("<?xml version=\"1.0\"?>", false, false, false, "?xml")
    );
    assert_eq!(segs.len(), 3);
}

#[test]
fn test_tokenize_keeps_text_escaped() {
    let segs = tokenize("<a>x &lt; y &amp; z</a>").unwrap();
    assert_eq!(segs[1], literal("x &lt; y &amp; z"));
}

#[test]
fn test_tokenize_empty_text_has_no_segments() {
    assert_eq!(tokenize("").unwrap(), Vec::<Segment>::new());
}

#[test]
fn test_tokenize_text_without_tags_is_one_literal() {
    assert_eq!(tokenize("plain > text").unwrap(), vec![literal("plain > text")]);
}

#[test]
fn test_round_trip_identity() {
    let inputs = [
        "",
        "text only",
        "<a/>",
        "<?xml version=\"1.0\" encoding=\"UTF-8\"?><w:document><w:body><w:p><w:r><w:t>部门: {{employee.department}}</w:t></w:r></w:p></w:body></w:document>",
        "<a>x &lt; y</a> tail",
        "lead<a><b/></a>",
    ];
    for input in inputs {
        let segs = tokenize(input).unwrap();
        assert_eq!(serialize(&segs), input);
    }
}

#[test]
fn test_tokenize_rejects_a_tag_that_is_cut_short() {
    assert_eq!(
        tokenize("<a>text</a"),
        Err(DocxHandlebarsError::Xml("a tag is not closed".to_string()))
    );
}

#[test]
fn test_tokenize_rejects_a_tag_inside_a_tag() {
    assert_eq!(
        tokenize("<a <b></a>"),
        Err(DocxHandlebarsError::Xml("a tag is not closed".to_string()))
    );
}

#[test]
fn test_tokenize_rejects_an_element_left_open() {
    assert_eq!(
        tokenize("<a><b></b>"),
        Err(DocxHandlebarsError::Xml("the elements are not balanced".to_string()))
    );
}

#[test]
fn test_tokenize_rejects_crossed_elements() {
    assert_eq!(
        tokenize("<a><b></a></b>"),
        Err(DocxHandlebarsError::Xml("the elements are not balanced".to_string()))
    );
}

#[test]
fn test_tokenize_rejects_a_closing_tag_without_opening() {
    assert_eq!(
        tokenize("</a>"),
        Err(DocxHandlebarsError::Xml("the elements are not balanced".to_string()))
    );
}

#[test]
fn test_segment_constructors_classify() {
    assert_eq!(Segment::tag("</w:p>"), tag("</w:p>", false, true, false, "w:p"));
    assert_eq!(Segment::tag("<w:p/>"), tag("<w:p/>", false, false, true, "w:p"));
    assert_eq!(Segment::tag("<w:p a=\"1\">"), tag("<w:p a=\"1\">", true, false, false, "w:p"));
    assert_eq!(Segment::literal("x"), literal("x"));
    assert!(Segment::tag("<w:p>").is_opening("w:p"));
    assert!(!Segment::tag("<w:p>").is_closing("w:p"));
    assert!(Segment::tag("</w:p>").is_closing("w:p"));
    assert!(!Segment::tag("<w:pPr>").is_opening("w:p"));
    assert!(!Segment::literal("w:p").is_opening("w:p"));
    assert_eq!(Segment::tag("<a>").duplicate(), Segment::tag("<a>"));
}
