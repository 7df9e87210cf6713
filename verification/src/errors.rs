//! Errors of the container validation step.

use vstd::prelude::*;
use vstd::string::*;

verus! {

/// Why a byte sequence was rejected as a DOCX container.
#[derive(Debug, Clone, PartialEq, Eq)]
pub enum DocxError {
    /// The archive opens but is not a word-processing document.
    InvalidZipFormat,
    /// Fewer bytes than the smallest possible ZIP archive.
    FileTooSmall,
    /// The first four bytes are not a ZIP signature.
    InvalidZipSignature,
    /// A mandatory member is absent; holds the member's path.
    MissingRequiredFile(String),
    /// The archive could not be read; holds the reader's description.
    ZipReadError(String),
    /// An input/output failure; holds its description.
    IoError(String),
    /// A template could not be processed; holds the description.
    TemplateError(String),
}

impl DocxError {
    /// The text shown to a user for this error.
    pub open spec fn message(&self) -> Seq<char> {
        match self {
            DocxError::InvalidZipFormat => "无效的 DOCX 文件格式：文件不是有效的 ZIP 文件"@,
            DocxError::FileTooSmall => "文件大小不足：文件太小，不是有效的 ZIP 文件（需要至少 22 字节）"@,
            DocxError::InvalidZipSignature => "无效的 ZIP 签名：文件开头不是有效的 ZIP 文件签名"@,
            DocxError::MissingRequiredFile(name) => "缺少必需的 DOCX 文件："@ + name@,
            DocxError::ZipReadError(detail) => "ZIP 文件读取错误："@ + detail@,
            DocxError::IoError(detail) => "IO 错误："@ + detail@,
            DocxError::TemplateError(detail) => "模板处理错误："@ + detail@,
        }
    }

    /// Renders the error as the text shown to a user.
    pub fn to_string(&self) -> (s: String)
        ensures
            s@ == self.message(),
    {
        match self {
            DocxError::InvalidZipFormat => String::from_str("无效的 DOCX 文件格式：文件不是有效的 ZIP 文件"),
            DocxError::FileTooSmall => String::from_str(
                "文件大小不足：文件太小，不是有效的 ZIP 文件（需要至少 22 字节）",
            ),
            DocxError::InvalidZipSignature => String::from_str(
                "无效的 ZIP 签名：文件开头不是有效的 ZIP 文件签名",
            ),
            DocxError::MissingRequiredFile(name) => String::from_str("缺少必需的 DOCX 文件：").concat(
                name.as_str(),
            ),
            DocxError::ZipReadError(detail) => String::from_str("ZIP 文件读取错误：").concat(
                detail.as_str(),
            ),
            DocxError::IoError(detail) => String::from_str("IO 错误：").concat(detail.as_str()),
            DocxError::TemplateError(detail) => String::from_str("模板处理错误：").concat(
                detail.as_str(),
            ),
        }
    }
}

} // verus!
