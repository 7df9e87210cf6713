use docx_handlebars::errors::DocxError;
use docx_handlebars::DocxHandlebarsError;

#[test]
fn test_docx_error_display() {
    let file_too_small = DocxError::FileTooSmall;
    assert_eq!(
        file_too_small.to_string(),
        "文件大小不足：文件太小，不是有效的 ZIP 文件（需要至少 22 字节）"
    );

    let invalid_signature = DocxError::InvalidZipSignature;
    assert_eq!(
        invalid_signature.to_string(),
        "无效的 ZIP 签名：文件开头不是有效的 ZIP 文件签名"
    );

    let missing_file = DocxError::MissingRequiredFile("word/document.xml".to_string());
    assert_eq!(
        missing_file.to_string(),
        "缺少必需的 DOCX 文件：word/document.xml"
    );

    let template_error = DocxError::TemplateError("测试错误".to_string());
    assert_eq!(template_error.to_string(), "模板处理错误：测试错误");
}

#[test]
fn test_docx_error_remaining_messages() {
    assert_eq!(
        DocxError::InvalidZipFormat.to_string(),
        "无效的 DOCX 文件格式：文件不是有效的 ZIP 文件"
    );
    assert_eq!(
        DocxError::ZipReadError("bad".to_string()).to_string(),
        "ZIP 文件读取错误：bad"
    );
    assert_eq!(DocxError::IoError("eof".to_string()).to_string(), "IO 错误：eof");
}

#[test]
fn test_error_types() {
    let custom_error = DocxHandlebarsError::custom("测试错误");
    assert!(custom_error.to_string().contains("测试错误"));

    let format_error = DocxHandlebarsError::document_format("无效格式");
    assert!(format_error.to_string().contains("无效格式"));

    let unsupported_error = DocxHandlebarsError::unsupported_feature("某个功能");
    assert!(unsupported_error.to_string().contains("某个功能"));
}

#[test]
fn test_error_constructors_pick_their_variant() {
    assert_eq!(
        DocxHandlebarsError::custom("a"),
        DocxHandlebarsError::Custom("a".to_string())
    );
    assert_eq!(
        DocxHandlebarsError::document_format("b"),
        DocxHandlebarsError::DocumentFormat("b".to_string())
    );
    assert_eq!(
        DocxHandlebarsError::unsupported_feature("c"),
        DocxHandlebarsError::UnsupportedFeature("c".to_string())
    );
}

#[test]
fn test_handlebars_error_messages() {
    let d = "x".to_string();
    assert_eq!(DocxHandlebarsError::Io(d.clone()).to_string(), "IO 错误: x");
    assert_eq!(DocxHandlebarsError::Zip(d.clone()).to_string(), "ZIP 格式错误: x");
    assert_eq!(DocxHandlebarsError::Xml(d.clone()).to_string(), "XML 解析错误: x");
    assert_eq!(
        DocxHandlebarsError::Template(d.clone()).to_string(),
        "Handlebars 模板错误: x"
    );
    assert_eq!(
        DocxHandlebarsError::Render(d.clone()).to_string(),
        "Handlebars 渲染错误: x"
    );
    assert_eq!(
        DocxHandlebarsError::Json(d.clone()).to_string(),
        "JSON 序列化/反序列化错误: x"
    );
    assert_eq!(DocxHandlebarsError::Utf8(d.clone()).to_string(), "UTF-8 编码错误: x");
    assert_eq!(
        DocxHandlebarsError::DocumentFormat(d.clone()).to_string(),
        "文档格式错误: x"
    );
    assert_eq!(DocxHandlebarsError::TemplateNotLoaded.to_string(), "模板未加载");
    assert_eq!(
        DocxHandlebarsError::UnsupportedFeature(d.clone()).to_string(),
        "不支持的功能: x"
    );
    assert_eq!(DocxHandlebarsError::Custom(d).to_string(), "自定义错误: x");
}
