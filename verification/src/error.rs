//! Errors of loading, rendering and repacking a document.

use vstd::prelude::*;
use vstd::string::*;

verus! {

/// What went wrong while a document was loaded, rendered or packed.
///
/// Failures that come from the archive reader, the markup reader, the
/// template evaluator or the JSON parser are kept by their description.
#[derive(Debug, Clone, PartialEq, Eq)]
pub enum DocxHandlebarsError {
    /// Reading or writing bytes failed.
    Io(String),
    /// The archive is corrupt or uses an unsupported feature.
    Zip(String),
    /// The markup is malformed.
    Xml(String),
    /// The evaluator rejected the template's syntax.
    Template(String),
    /// The evaluator failed while rendering.
    Render(String),
    /// The data is not valid JSON.
    Json(String),
    /// Text was required and the bytes are not UTF-8.
    Utf8(String),
    /// The container does not have the shape of a document.
    DocumentFormat(String),
    /// An operation needs a template and none was loaded.
    TemplateNotLoaded,
    /// The document uses something this library does not handle.
    UnsupportedFeature(String),
    /// Any other failure.
    Custom(String),
}

/// The result type of the library's fallible operations.
pub type Result<T> = std::result::Result<T, DocxHandlebarsError>;

impl DocxHandlebarsError {
    /// The text shown to a user for this error.
    pub open spec fn message(&self) -> Seq<char> {
        match self {
            DocxHandlebarsError::Io(d) => "IO 错误: "@ + d@,
            DocxHandlebarsError::Zip(d) => "ZIP 格式错误: "@ + d@,
            DocxHandlebarsError::Xml(d) => "XML 解析错误: "@ + d@,
            DocxHandlebarsError::Template(d) => "Handlebars 模板错误: "@ + d@,
            DocxHandlebarsError::Render(d) => "Handlebars 渲染错误: "@ + d@,
            DocxHandlebarsError::Json(d) => "JSON 序列化/反序列化错误: "@ + d@,
            DocxHandlebarsError::Utf8(d) => "UTF-8 编码错误: "@ + d@,
            DocxHandlebarsError::DocumentFormat(d) => "文档格式错误: "@ + d@,
            DocxHandlebarsError::TemplateNotLoaded => "模板未加载"@,
            DocxHandlebarsError::UnsupportedFeature(d) => "不支持的功能: "@ + d@,
            DocxHandlebarsError::Custom(d) => "自定义错误: "@ + d@,
        }
    }

    /// Renders the error as the text shown to a user.
    pub fn to_string(&self) -> (s: String)
        ensures
            s@ == self.message(),
    {
        match self {
            DocxHandlebarsError::Io(d) => String::from_str("IO 错误: ").concat(d.as_str()),
            DocxHandlebarsError::Zip(d) => String::from_str("ZIP 格式错误: ").concat(d.as_str()),
            DocxHandlebarsError::Xml(d) => String::from_str("XML 解析错误: ").concat(d.as_str()),
            DocxHandlebarsError::Template(d) => String::from_str("Handlebars 模板错误: ").concat(
                d.as_str(),
            ),
            DocxHandlebarsError::Render(d) => String::from_str("Handlebars 渲染错误: ").concat(
                d.as_str(),
            ),
            DocxHandlebarsError::Json(d) => String::from_str("JSON 序列化/反序列化错误: ").concat(
                d.as_str(),
            ),
            DocxHandlebarsError::Utf8(d) => String::from_str("UTF-8 编码错误: ").concat(d.as_str()),
            DocxHandlebarsError::DocumentFormat(d) => String::from_str("文档格式错误: ").concat(
                d.as_str(),
            ),
            DocxHandlebarsError::TemplateNotLoaded => String::from_str("模板未加载"),
            DocxHandlebarsError::UnsupportedFeature(d) => String::from_str("不支持的功能: ").concat(
                d.as_str(),
            ),
            DocxHandlebarsError::Custom(d) => String::from_str("自定义错误: ").concat(d.as_str()),
        }
    }

    /// An error that fits no other variant.
    pub fn custom(message: &str) -> (e: Self)
        ensures
            e matches DocxHandlebarsError::Custom(d) && d@ == message@,
    {
        DocxHandlebarsError::Custom(String::from_str(message))
    }

    /// An error for a container that is not shaped like a document.
    pub fn document_format(message: &str) -> (e: Self)
        ensures
            e matches DocxHandlebarsError::DocumentFormat(d) && d@ == message@,
    {
        DocxHandlebarsError::DocumentFormat(String::from_str(message))
    }

    /// An error for a feature the library does not handle.
    pub fn unsupported_feature(feature: &str) -> (e: Self)
        ensures
            e matches DocxHandlebarsError::UnsupportedFeature(d) && d@ == feature@,
    {
        DocxHandlebarsError::UnsupportedFeature(String::from_str(feature))
    }
}

} // verus!
