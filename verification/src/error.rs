//! Application error categories.

use vstd::prelude::*;

verus! {

/// Application error; the variant is the category shown to the user.
#[derive(Debug, Clone, PartialEq, Eq)]
pub enum AppError {
    /// database / persistence failure
    Database(String),
    /// file system / IO failure
    Io(String),
    /// invalid input (normally caught before submission)
    InvalidInput(String),
    /// credential store failure
    Keyring(String),
    /// anything else
    Internal(String),
}

/// The user-facing text of an error: a category prefix and the detail.
pub open spec fn error_text(e: AppError) -> Seq<char> {
    match e {
        AppError::Database(m) => "数据库错误："@ + m@,
        AppError::Io(m) => "文件错误："@ + m@,
        AppError::InvalidInput(m) => "参数错误："@ + m@,
        AppError::Keyring(m) => "凭据存储错误："@ + m@,
        AppError::Internal(m) => "内部错误："@ + m@,
    }
}

/// `AppResult<T>`: what commands return.
pub type AppResult<T> = Result<T, AppError>;

impl AppError {
    /// The user-facing text: category prefix, full-width colon, detail.
    pub fn message(&self) -> (r: String)
        ensures
            r@ == error_text(*self),
    {
        let (prefix, detail) = match self {
            AppError::Database(m) => ("数据库错误：", m),
            AppError::Io(m) => ("文件错误：", m),
            AppError::InvalidInput(m) => ("参数错误：", m),
            AppError::Keyring(m) => ("凭据存储错误：", m),
            AppError::Internal(m) => ("内部错误：", m),
        };
        let mut v = crate::text::chars_of(prefix);
        let d = crate::text::chars_of(detail.as_str());
        let ghost v0 = v@;
        v.extend_from_slice(d.as_slice());
        assert(v@ =~= v0 + d@);
        crate::text::string_of(v.as_slice())
    }

    /// Same as [`AppError::message`].
    pub fn to_string(&self) -> (r: String)
        ensures
            r@ == error_text(*self),
    {
        self.message()
    }
}

} // verus!
