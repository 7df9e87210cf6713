use docx_handlebars::archive::{fault_error, pack, unpack, ArchiveFault, ArchiveMember};
use docx_handlebars::errors::DocxError;
use docx_handlebars::evaluator::{new_engine, parse_json};
use docx_handlebars::template::{render_handlebars, render_members, replace_body, RenderError};
use docx_handlebars::utils::validate_docx_format;
use docx_handlebars::DocxHandlebarsError;

const CONTENT_TYPES: &str = "<?xml version=\"1.0\"?><Types><Override PartName=\"/word/document.xml\" ContentType=\"application/vnd.openxmlformats-officedocument.wordprocessingml.document.main+xml\"/></Types>";

const BODY: &str = "<w:document><w:body><w:p><w:r><w:t>Hello {{name}}</w:t></w:r></w:p></w:body></w:document>";

fn member(name: &str, data: &[u8]) -> ArchiveMember {
    ArchiveMember { name: name.to_string(), data: data.to_vec() }
}

fn docx_members() -> Vec<ArchiveMember> {
    vec![
        member("[Content_Types].xml", CONTENT_TYPES.as_bytes()),
        member("_rels/.rels", b"<Relationships/>"),
        member("word/document.xml", BODY.as_bytes()),
        member("word/media/image1.png", &[0x89, 0x50, 0x4e, 0x47, 0xff, 0x00, 0xfe]),
    ]
}

fn docx_bytes() -> Vec<u8> {
    pack(&docx_members(), None).unwrap()
}

#[test]
fn test_pack_then_unpack_gives_the_members_back() {
    let members = docx_members();
    assert_eq!(unpack(pack(&members, None).unwrap()).unwrap(), members);
    assert_eq!(unpack(pack(&members, Some(6)).unwrap()).unwrap(), members);
    assert_eq!(unpack(pack(&vec![], None).unwrap()).unwrap(), vec![]);
}

#[test]
fn test_pack_refuses_a_path_twice() {
    let twice = vec![member("a", b"1"), member("a", b"2")];
    assert!(matches!(pack(&twice, None), Err(DocxHandlebarsError::Zip(_))));
}

#[test]
fn test_unpack_rejects_what_is_no_archive() {
    assert!(matches!(
        unpack(b"this is not a zip archive at all".to_vec()),
        Err(DocxHandlebarsError::Zip(_))
    ));
    assert!(matches!(unpack(Vec::new()), Err(DocxHandlebarsError::Zip(_))));
}

#[test]
fn test_fault_error() {
    assert_eq!(
        fault_error(ArchiveFault::Entry("e".to_string())),
        DocxHandlebarsError::Zip("e".to_string())
    );
    assert_eq!(
        fault_error(ArchiveFault::Data("d".to_string())),
        DocxHandlebarsError::Io("d".to_string())
    );
}

#[test]
fn test_validate_accepts_a_document() {
    assert_eq!(validate_docx_format(&docx_bytes()), Ok(()));
}

#[test]
fn test_validate_rejects_too_few_bytes() {
    assert_eq!(validate_docx_format(&[]), Err(DocxError::FileTooSmall));
    assert_eq!(validate_docx_format(&[0x50; 21]), Err(DocxError::FileTooSmall));
}

#[test]
fn test_validate_rejects_a_wrong_signature() {
    assert_eq!(validate_docx_format(&[0u8; 22]), Err(DocxError::InvalidZipSignature));
    let mut bytes = docx_bytes();
    bytes[2] = 0x03;
    bytes[3] = 0x05;
    assert_eq!(validate_docx_format(&bytes), Err(DocxError::InvalidZipSignature));
}

#[test]
fn test_validate_rejects_an_archive_that_does_not_open() {
    let mut bytes = vec![0x50, 0x4b, 0x03, 0x04];
    bytes.extend_from_slice(&[0x41; 40]);
    match validate_docx_format(&bytes) {
        Err(DocxError::ZipReadError(detail)) => {
            assert!(detail.starts_with("无法读取 ZIP 文件: "));
            assert!(detail.len() > "无法读取 ZIP 文件: ".len());
        }
        other => panic!("{:?}", other),
    }
}

#[test]
fn test_validate_accepts_each_signature() {
    let mut empty_archive = vec![0x50, 0x4b, 0x05, 0x06];
    empty_archive.extend_from_slice(&[0u8; 18]);
    assert_eq!(
        validate_docx_format(&empty_archive),
        Err(DocxError::MissingRequiredFile("[Content_Types].xml".to_string()))
    );
    let mut descriptor = vec![0x50, 0x4b, 0x07, 0x08];
    descriptor.extend_from_slice(&[0x41; 40]);
    assert!(matches!(
        validate_docx_format(&descriptor),
        Err(DocxError::ZipReadError(_))
    ));
}

#[test]
fn test_validate_names_the_first_missing_member() {
    let all = docx_members();
    let without = |skip: usize| -> Vec<u8> {
        let kept: Vec<ArchiveMember> = all
            .iter()
            .enumerate()
            .filter(|(i, _)| *i != skip)
            .map(|(_, m)| m.clone())
            .collect();
        pack(&kept, None).unwrap()
    };
    assert_eq!(
        validate_docx_format(&without(0)),
        Err(DocxError::MissingRequiredFile("[Content_Types].xml".to_string()))
    );
    assert_eq!(
        validate_docx_format(&without(1)),
        Err(DocxError::MissingRequiredFile("_rels/.rels".to_string()))
    );
    assert_eq!(
        validate_docx_format(&without(2)),
        Err(DocxError::MissingRequiredFile("word/document.xml".to_string()))
    );
    assert_eq!(validate_docx_format(&without(3)), Ok(()));
}

#[test]
fn test_validate_rejects_a_manifest_of_another_kind() {
    let mut members = docx_members();
    members[0] = member("[Content_Types].xml", b"<Types/>");
    assert_eq!(
        validate_docx_format(&pack(&members, None).unwrap()),
        Err(DocxError::InvalidZipFormat)
    );
}

#[test]
fn test_validate_rejects_a_manifest_that_is_no_text() {
    let mut members = docx_members();
    members[0] = member("[Content_Types].xml", &[0xff, 0xfe, 0x00]);
    assert_eq!(
        validate_docx_format(&pack(&members, None).unwrap()),
        Err(DocxError::InvalidZipFormat)
    );
}

#[test]
fn test_replace_body() {
    let members = docx_members();
    let out = replace_body(&members, 2, "NEW");
    assert_eq!(out.len(), 4);
    assert_eq!(out[0], members[0]);
    assert_eq!(out[1], members[1]);
    assert_eq!(out[2], member("word/document.xml", b"NEW"));
    assert_eq!(out[3], members[3]);
    assert_eq!(replace_body(&members, 9, "NEW"), members);
}

#[test]
fn test_render_members_changes_the_body_only() {
    let engine = new_engine();
    let data = parse_json("{\"name\": \"World\"}").unwrap();
    let members = docx_members();
    let out = render_members(&members, &engine, &data).unwrap();
    assert_eq!(out.len(), members.len());
    assert_eq!(out[0], members[0]);
    assert_eq!(out[1], members[1]);
    assert_eq!(out[3], members[3]);
    assert_eq!(out[2].name, "word/document.xml");
    assert_eq!(
        String::from_utf8(out[2].data.clone()).unwrap(),
        "<w:document><w:body><w:p><w:r><w:t>Hello World</w:t></w:r></w:p></w:body></w:document>"
    );
}

#[test]
fn test_render_members_errors() {
    let engine = new_engine();
    let data = parse_json("{}").unwrap();
    assert_eq!(
        render_members(&vec![member("other.xml", b"<a/>")], &engine, &data),
        Err(DocxHandlebarsError::DocumentFormat(
            "无法找到 word/document.xml 文件".to_string()
        ))
    );
    assert_eq!(
        render_members(&vec![member("word/document.xml", &[0x3c, 0xff, 0x3e])], &engine, &data),
        Err(DocxHandlebarsError::Utf8(
            "word/document.xml is not valid UTF-8".to_string()
        ))
    );
    assert_eq!(
        render_members(&vec![member("word/document.xml", b"<a>")], &engine, &data),
        Err(DocxHandlebarsError::Xml("the elements are not balanced".to_string()))
    );
}

#[test]
fn test_render_handlebars_end_to_end() {
    let engine = new_engine();
    let data = parse_json("{\"name\": \"张三\"}").unwrap();
    let rendered = render_handlebars(docx_bytes(), &engine, &data).unwrap();
    assert_eq!(validate_docx_format(&rendered), Ok(()));
    let out = unpack(rendered).unwrap();
    let members = docx_members();
    assert_eq!(out.len(), 4);
    assert_eq!(out[0], members[0]);
    assert_eq!(out[1], members[1]);
    assert_eq!(out[3], members[3]);
    assert_eq!(
        out[2],
        member(
            "word/document.xml",
            "<w:document><w:body><w:p><w:r><w:t>Hello 张三</w:t></w:r></w:p></w:body></w:document>"
                .as_bytes()
        )
    );
}

#[test]
fn test_render_handlebars_rejects_what_is_no_document() {
    let engine = new_engine();
    let data = parse_json("{}").unwrap();
    let none = render_handlebars(vec![], &engine, &data);
    assert_eq!(none, Err(RenderError::Validation(DocxError::FileTooSmall)));
    assert_eq!(
        none.unwrap_err().to_string(),
        "文件大小不足：文件太小，不是有效的 ZIP 文件（需要至少 22 字节）"
    );
    assert_eq!(
        render_handlebars(vec![1, 2, 3], &engine, &data),
        Err(RenderError::Validation(DocxError::FileTooSmall))
    );
    let unsigned = render_handlebars(vec![0u8; 64], &engine, &data);
    assert_eq!(unsigned, Err(RenderError::Validation(DocxError::InvalidZipSignature)));
    assert_eq!(
        unsigned.unwrap_err().to_string(),
        "无效的 ZIP 签名：文件开头不是有效的 ZIP 文件签名"
    );
    let mut members = docx_members();
    members.remove(1);
    assert_eq!(
        render_handlebars(pack(&members, None).unwrap(), &engine, &data),
        Err(RenderError::Validation(DocxError::MissingRequiredFile(
            "_rels/.rels".to_string()
        )))
    );
    let mut malformed = docx_members();
    malformed[2] = member("word/document.xml", b"<w:p>");
    let failed = render_handlebars(pack(&malformed, None).unwrap(), &engine, &data);
    assert_eq!(
        failed,
        Err(RenderError::Document(DocxHandlebarsError::Xml(
            "the elements are not balanced".to_string()
        )))
    );
    assert_eq!(
        failed.unwrap_err().to_string(),
        "XML 解析错误: the elements are not balanced"
    );
}
