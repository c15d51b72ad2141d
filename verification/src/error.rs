//! Error taxonomy of the broker, and the structured shape in which errors
//! cross the command boundary.
//!
//! Internally components raise [`AppError`]; the boundary only ever sees the
//! `(kind, message, suggestion)` triple of [`ErrorResponse`].

use vstd::prelude::*;

verus! {

/// Internal error raised by the broker's components.
#[derive(Debug)]
pub enum AppError {
    /// Bad input: nonexistent file, malformed request. Never retried.
    ValidationError(String),
    /// Timeout or memory cap exceeded. Retried up to the policy limit.
    ResourceLimit(String),
    /// External tool failed or is missing.
    ToolError(String),
    /// Filesystem failure reading or writing artifacts. Not retried.
    IoError(String),
    /// The operation was canceled on explicit request.
    Cancelled,
    /// Persistence failure, surfaced to the caller.
    DatabaseError(String),
    /// A value could not be encoded or decoded.
    SerializationError(String),
    /// Invariant violation; never silently swallowed.
    Internal(String),
}

/// Classification attached to every error crossing the boundary.
#[derive(Clone, Copy, Debug, PartialEq, Eq, Structural)]
pub enum ErrorKind {
    ValidationError,
    ResourceLimit,
    ToolError,
    IoError,
    Canceled,
    DatabaseError,
    Internal,
}

/// The sole error shape crossing the command boundary.
#[derive(Debug)]
pub struct ErrorResponse {
    pub kind: ErrorKind,
    pub message: String,
    pub suggestion: Option<String>,
}

/// The classification under which an internal error is surfaced.
pub open spec fn kind_of(e: AppError) -> ErrorKind {
    match e {
        AppError::ValidationError(_) => ErrorKind::ValidationError,
        AppError::ResourceLimit(_) => ErrorKind::ResourceLimit,
        AppError::ToolError(_) => ErrorKind::ToolError,
        AppError::IoError(_) => ErrorKind::IoError,
        AppError::Cancelled => ErrorKind::Canceled,
        AppError::DatabaseError(_) => ErrorKind::DatabaseError,
        AppError::SerializationError(_) => ErrorKind::Internal,
        AppError::Internal(_) => ErrorKind::Internal,
    }
}

/// The human-readable message carried across the boundary.
pub open spec fn message_of(e: AppError) -> Seq<char> {
    match e {
        AppError::ValidationError(m) => m@,
        AppError::ResourceLimit(m) => m@,
        AppError::ToolError(m) => m@,
        AppError::IoError(m) => m@,
        AppError::Cancelled => "操作已取消"@,
        AppError::DatabaseError(m) => m@,
        AppError::SerializationError(m) => m@,
        AppError::Internal(m) => m@,
    }
}

/// The remediation suggestion, when one is known for the kind of failure.
pub open spec fn suggestion_of(e: AppError) -> Option<Seq<char>> {
    match e {
        AppError::ValidationError(_) => Some("请检查输入参数是否正确"@),
        AppError::ResourceLimit(_) => Some("请尝试降低质量设置或分批处理"@),
        AppError::ToolError(_) => Some("请检查工具是否正确安装"@),
        AppError::IoError(_) => Some("请检查文件路径和权限"@),
        AppError::Cancelled => Some("可从断点继续运行"@),
        AppError::DatabaseError(_) => None,
        AppError::SerializationError(_) => None,
        AppError::Internal(_) => None,
    }
}

impl ErrorResponse {
    /// Maps an internal error to the boundary triple: its kind from the
    /// taxonomy, its message, and an optional remediation suggestion.
    pub fn from_error(err: AppError) -> (r: ErrorResponse)
        ensures
            r.kind == kind_of(err),
            r.message@ == message_of(err),
            r.suggestion.deep_view() == suggestion_of(err),
    {
        match err {
            AppError::ValidationError(msg) => ErrorResponse {
                kind: ErrorKind::ValidationError,
                message: msg,
                suggestion: Some("请检查输入参数是否正确".to_owned()),
            },
            AppError::ResourceLimit(msg) => ErrorResponse {
                kind: ErrorKind::ResourceLimit,
                message: msg,
                suggestion: Some("请尝试降低质量设置或分批处理".to_owned()),
            },
            AppError::ToolError(msg) => ErrorResponse {
                kind: ErrorKind::ToolError,
                message: msg,
                suggestion: Some("请检查工具是否正确安装".to_owned()),
            },
            AppError::IoError(msg) => ErrorResponse {
                kind: ErrorKind::IoError,
                message: msg,
                suggestion: Some("请检查文件路径和权限".to_owned()),
            },
            AppError::Cancelled => ErrorResponse {
                kind: ErrorKind::Canceled,
                message: "操作已取消".to_owned(),
                suggestion: Some("可从断点继续运行".to_owned()),
            },
            AppError::DatabaseError(msg) => ErrorResponse {
                kind: ErrorKind::DatabaseError,
                message: msg,
                suggestion: None,
            },
            AppError::SerializationError(msg) => ErrorResponse {
                kind: ErrorKind::Internal,
                message: msg,
                suggestion: None,
            },
            AppError::Internal(msg) => ErrorResponse {
                kind: ErrorKind::Internal,
                message: msg,
                suggestion: None,
            },
        }
    }
}

impl From<AppError> for ErrorResponse {
    fn from(err: AppError) -> Self {
        ErrorResponse::from_error(err)
    }
}

impl vstd::std_specs::convert::FromSpecImpl<AppError> for ErrorResponse {
    open spec fn obeys_from_spec() -> bool {
        false
    }

    open spec fn from_spec(t: AppError) -> Self {
        arbitrary()
    }
}

} // verus!
