//! What a request is refused with. Nothing of the inside of the server shows in it.

use vstd::prelude::*;
use vstd::string::*;

verus! {

/// Why a request is refused.
#[derive(Debug)]
pub enum AppError {
    Unauthorized,
    Forbidden,
    NotFound,
    /// The request is wrong, and this is what the user is told.
    BadRequest(String),
    TooManyRequests,
    /// Something failed inside; the user is told no more.
    Internal,
}

/// The view of [`AppError`].
#[verifier::ext_equal]
pub enum ErrorView {
    Unauthorized,
    Forbidden,
    NotFound,
    BadRequest { message: Seq<char> },
    TooManyRequests,
    Internal,
}

impl View for AppError {
    type V = ErrorView;

    open spec fn view(&self) -> ErrorView {
        match *self {
            AppError::Unauthorized => ErrorView::Unauthorized,
            AppError::Forbidden => ErrorView::Forbidden,
            AppError::NotFound => ErrorView::NotFound,
            AppError::BadRequest(m) => ErrorView::BadRequest { message: m@ },
            AppError::TooManyRequests => ErrorView::TooManyRequests,
            AppError::Internal => ErrorView::Internal,
        }
    }
}

/// A wrong request, and what the user is told.
pub open spec fn wrong(message: Seq<char>) -> ErrorView {
    ErrorView::BadRequest { message }
}

/// The HTTP status of a refusal.
pub open spec fn status_code(e: ErrorView) -> u16 {
    match e {
        ErrorView::Unauthorized => 401,
        ErrorView::Forbidden => 403,
        ErrorView::NotFound => 404,
        ErrorView::BadRequest { message } => 400,
        ErrorView::TooManyRequests => 429,
        ErrorView::Internal => 500,
    }
}

/// What the user is told.
pub open spec fn told(e: ErrorView) -> Seq<char> {
    match e {
        ErrorView::Unauthorized => "未认证"@,
        ErrorView::Forbidden => "禁止访问"@,
        ErrorView::NotFound => "不存在"@,
        ErrorView::BadRequest { message } => message,
        ErrorView::TooManyRequests => "请求过于频繁,请稍后再试"@,
        ErrorView::Internal => "内部错误"@,
    }
}

impl AppError {
    /// A wrong request, and what the user is told.
    pub fn bad(msg: &str) -> (r: Self)
        ensures
            r@ == wrong(msg@),
    {
        AppError::BadRequest(msg.to_string())
    }

    /// The HTTP status of the refusal.
    pub fn status(&self) -> (r: u16)
        ensures
            r == status_code(self@),
    {
        match self {
            AppError::Unauthorized => 401,
            AppError::Forbidden => 403,
            AppError::NotFound => 404,
            AppError::BadRequest(_) => 400,
            AppError::TooManyRequests => 429,
            AppError::Internal => 500,
        }
    }

    /// What the user is told.
    pub fn message(&self) -> (r: String)
        ensures
            r@ == told(self@),
    {
        match self {
            AppError::Unauthorized => "未认证".to_string(),
            AppError::Forbidden => "禁止访问".to_string(),
            AppError::NotFound => "不存在".to_string(),
            AppError::BadRequest(m) => m.as_str().to_string(),
            AppError::TooManyRequests => "请求过于频繁,请稍后再试".to_string(),
            AppError::Internal => "内部错误".to_string(),
        }
    }
}

/// The error of a result, if it is one; contracts compare it with what a function owes.
pub open spec fn refusal<T>(r: Result<T, AppError>) -> Option<ErrorView> {
    match r {
        Ok(_) => None,
        Err(e) => Some(e@),
    }
}

} // verus!
