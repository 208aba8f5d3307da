//! The unified error type of the pipeline, with a rendered message for
//! each variant.

use vstd::prelude::*;
use crate::digits::{spec_decimal, u16_to_string};

verus! {

/// `anyhow::Error`, declared so that internal errors can carry one.
#[verifier::external_type_specification]
#[verifier::external_body]
pub struct ExAnyhowError(anyhow::Error);

/// What went wrong, by area.
#[derive(Debug)]
pub enum TranslationError {
    /// A network request failed.
    Network {
        /// Error message.
        message: String,
        /// HTTP status code, when one was received.
        status_code: Option<u16>,
    },
    /// The input HTML could not be parsed.
    HtmlParse {
        /// Details.
        details: String,
    },
    /// A file operation failed.
    FileOperation {
        /// File path.
        path: String,
        /// The operation: reading, writing, creating.
        operation: String,
        /// The underlying error.
        source: String,
    },
    /// The translation service answered with an error.
    TranslationApi {
        /// HTTP status code of the reply.
        status_code: u16,
        /// Error message.
        message: String,
        /// The endpoint called.
        api_url: String,
    },
    /// A configuration value is unusable.
    Configuration {
        /// The configuration field.
        field: String,
        /// Why it was rejected.
        reason: String,
    },
    /// An input value was rejected.
    InputValidation {
        /// The input.
        input: String,
        /// Why it was rejected.
        reason: String,
    },
    /// Temporary-file bookkeeping failed.
    TempFileManagement {
        /// The operation.
        operation: String,
        /// Details.
        details: String,
    },
    /// A wrapped internal error.
    Internal {
        /// The wrapped error.
        source: anyhow::Error,
    },
}

/// The rendered message of each variant, over its parts.
pub open spec fn spec_error_message(e: TranslationError) -> Seq<char>
    recommends
        !(e is Internal),
{
    match e {
        TranslationError::Network { message, status_code } => match status_code {
            Some(code) => "网络请求失败 ["@ + spec_decimal(code as nat) + "]: "@ + message@,
            None => "网络请求失败: "@ + message@,
        },
        TranslationError::HtmlParse { details } => "HTML解析失败: "@ + details@,
        TranslationError::FileOperation { path, operation, source } => "文件"@ + operation@
            + "操作失败 ["@ + path@ + "]: "@ + source@,
        TranslationError::TranslationApi { status_code, message, api_url } => "翻译API错误 ["@
            + spec_decimal(status_code as nat) + "] "@ + api_url@ + ": "@ + message@,
        TranslationError::Configuration { field, reason } => "配置错误 ["@ + field@ + "]: "@
            + reason@,
        TranslationError::InputValidation { input, reason } => "输入验证失败 ["@ + input@
            + "]: "@ + reason@,
        TranslationError::TempFileManagement { operation, details } => "临时文件"@ + operation@
            + "失败: "@ + details@,
        TranslationError::Internal { .. } => "内部处理错误: "@,
    }
}

/// Relies on the `Display` rendering of `anyhow::Error` for the wrapped
/// message of an internal error.
#[verifier::external_body]
fn anyhow_message(e: &anyhow::Error) -> String {
    format!("{}", e)
}

impl TranslationError {
    /// Renders the error as text; for an internal error the wrapped
    /// error's own message follows the prefix.
    pub fn message(&self) -> (r: String)
        ensures
            !(self is Internal) ==> r@ == spec_error_message(*self),
            self is Internal ==> crate::strutil::spec_starts_with(
                r@,
                spec_error_message(*self),
            ),
    {
        match self {
            TranslationError::Network { message, status_code } => {
                let mut s = String::from_str("网络请求失败");
                match status_code {
                    Some(code) => {
                        s.append(" [");
                        let d = u16_to_string(*code);
                        s.append(d.as_str());
                        s.append("]: ");
                    },
                    None => {
                        s.append(": ");
                    },
                }
                s.append(message.as_str());
                proof {
                    reveal_strlit("网络请求失败");
                    reveal_strlit("网络请求失败 [");
                    reveal_strlit("网络请求失败: ");
                    reveal_strlit(" [");
                    reveal_strlit("]: ");
                    reveal_strlit(": ");
                    assert(s@ =~= spec_error_message(*self));
                }
                s
            },
            TranslationError::HtmlParse { details } => {
                let mut s = String::from_str("HTML解析失败: ");
                s.append(details.as_str());
                proof {
                    assert(s@ =~= spec_error_message(*self));
                }
                s
            },
            TranslationError::FileOperation { path, operation, source } => {
                let mut s = String::from_str("文件");
                s.append(operation.as_str());
                s.append("操作失败 [");
                s.append(path.as_str());
                s.append("]: ");
                s.append(source.as_str());
                proof {
                    assert(s@ =~= spec_error_message(*self));
                }
                s
            },
            TranslationError::TranslationApi { status_code, message, api_url } => {
                let mut s = String::from_str("翻译API错误 [");
                let d = u16_to_string(*status_code);
                s.append(d.as_str());
                s.append("] ");
                s.append(api_url.as_str());
                s.append(": ");
                s.append(message.as_str());
                proof {
                    assert(s@ =~= spec_error_message(*self));
                }
                s
            },
            TranslationError::Configuration { field, reason } => {
                let mut s = String::from_str("配置错误 [");
                s.append(field.as_str());
                s.append("]: ");
                s.append(reason.as_str());
                proof {
                    assert(s@ =~= spec_error_message(*self));
                }
                s
            },
            TranslationError::InputValidation { input, reason } => {
                let mut s = String::from_str("输入验证失败 [");
                s.append(input.as_str());
                s.append("]: ");
                s.append(reason.as_str());
                proof {
                    assert(s@ =~= spec_error_message(*self));
                }
                s
            },
            TranslationError::TempFileManagement { operation, details } => {
                let mut s = String::from_str("临时文件");
                s.append(operation.as_str());
                s.append("失败: ");
                s.append(details.as_str());
                proof {
                    assert(s@ =~= spec_error_message(*self));
                }
                s
            },
            TranslationError::Internal { source } => {
                let mut s = String::from_str("内部处理错误: ");
                let m = anyhow_message(source);
                s.append(m.as_str());
                proof {
                    assert(s@.subrange(0, spec_error_message(*self).len() as int)
                        =~= spec_error_message(*self));
                }
                s
            },
        }
    }
}

impl From<anyhow::Error> for TranslationError {
    /// Wraps an internal error.
    fn from(error: anyhow::Error) -> (r: TranslationError)
        ensures
            r is Internal,
    {
        TranslationError::Internal { source: error }
    }
}

impl vstd::std_specs::convert::FromSpecImpl<anyhow::Error> for TranslationError {
    open spec fn obeys_from_spec() -> bool {
        true
    }

    open spec fn from_spec(t: anyhow::Error) -> TranslationError {
        TranslationError::Internal { source: t }
    }
}

} // verus!
