use vstd::prelude::*;

verus! {

/// The errors the server answers with.
#[derive(Debug, Clone, PartialEq, Eq)]
pub enum AppError {
    JwtError(String),
    Unauthorized(String),
    DatabaseError(String),
    NotFound(String),
    BadRequest(String),
    Forbidden(String),
    Internal,
}

/// The value of an error: its kind and its message's text.
pub enum AppErrorView {
    JwtError(Seq<char>),
    Unauthorized(Seq<char>),
    DatabaseError(Seq<char>),
    NotFound(Seq<char>),
    BadRequest(Seq<char>),
    Forbidden(Seq<char>),
    Internal,
}

impl View for AppError {
    type V = AppErrorView;

    open spec fn view(&self) -> AppErrorView {
        match self {
            AppError::JwtError(m) => AppErrorView::JwtError(m@),
            AppError::Unauthorized(m) => AppErrorView::Unauthorized(m@),
            AppError::DatabaseError(m) => AppErrorView::DatabaseError(m@),
            AppError::NotFound(m) => AppErrorView::NotFound(m@),
            AppError::BadRequest(m) => AppErrorView::BadRequest(m@),
            AppError::Forbidden(m) => AppErrorView::Forbidden(m@),
            AppError::Internal => AppErrorView::Internal,
        }
    }
}

/// A result whose error is taken by its value.
pub open spec fn checked<T>(r: Result<T, AppError>) -> Result<T, AppErrorView> {
    match r {
        Ok(v) => Ok(v),
        Err(e) => Err(e@),
    }
}

/// A dependency that the application state was built without.
#[derive(Debug, Clone, PartialEq, Eq)]
pub enum AppStateBuilderError {
    MissingDependency(&'static str),
}

/// The HTTP status code an error is answered with.
pub open spec fn error_status(e: AppError) -> u16 {
    match e {
        AppError::JwtError(_) => 400,
        AppError::Unauthorized(_) => 401,
        AppError::DatabaseError(_) => 500,
        AppError::NotFound(_) => 404,
        AppError::BadRequest(_) => 400,
        AppError::Forbidden(_) => 403,
        AppError::Internal => 500,
    }
}

/// The message an error is answered with.
pub open spec fn error_message(e: AppError) -> Seq<char> {
    match e {
        AppError::JwtError(m) => m@,
        AppError::Unauthorized(m) => m@,
        AppError::DatabaseError(m) => "Database error: "@ + m@,
        AppError::NotFound(m) => m@,
        AppError::BadRequest(m) => m@,
        AppError::Forbidden(m) => m@,
        AppError::Internal => "Internal server error"@,
    }
}

impl AppError {
    /// The HTTP status code and the message with which this error is answered: a bad token
    /// or request 400, an unauthorized caller 401, a forbidden request 403, something not found
    /// 404, and a database or internal error 500.
    pub fn status_and_message(&self) -> (r: (u16, String))
        ensures
            r.0 == error_status(*self),
            r.1@ == error_message(*self),
    {
        match self {
            AppError::JwtError(m) => (400, m.clone()),
            AppError::Unauthorized(m) => (401, m.clone()),
            AppError::DatabaseError(m) => {
                let mut text = String::from_str("Database error: ");
                text.append(m.as_str());
                (500, text)
            },
            AppError::NotFound(m) => (404, m.clone()),
            AppError::BadRequest(m) => (400, m.clone()),
            AppError::Forbidden(m) => (403, m.clone()),
            AppError::Internal => (500, String::from_str("Internal server error")),
        }
    }
}

/// The text an error is shown with.
pub open spec fn app_error_text(e: AppErrorView) -> Seq<char> {
    match e {
        AppErrorView::JwtError(m) => "JWT error: "@ + m,
        AppErrorView::Unauthorized(m) => "Unauthorized: "@ + m,
        AppErrorView::DatabaseError(m) => "Database error: "@ + m,
        AppErrorView::NotFound(m) => "Not found: "@ + m,
        AppErrorView::BadRequest(m) => "Bad request: "@ + m,
        AppErrorView::Forbidden(m) => "Forbidden: "@ + m,
        AppErrorView::Internal => "Internal server error"@,
    }
}

impl AppError {
    /// The text this error is shown with.
    pub fn message(&self) -> (m: String)
        ensures
            m@ == app_error_text(self@),
    {
        let (mut m, detail) = match self {
            AppError::JwtError(d) => (String::from_str("JWT error: "), d),
            AppError::Unauthorized(d) => (String::from_str("Unauthorized: "), d),
            AppError::DatabaseError(d) => (String::from_str("Database error: "), d),
            AppError::NotFound(d) => (String::from_str("Not found: "), d),
            AppError::BadRequest(d) => (String::from_str("Bad request: "), d),
            AppError::Forbidden(d) => (String::from_str("Forbidden: "), d),
            AppError::Internal => {
                return String::from_str("Internal server error");
            },
        };
        m.append(detail.as_str());
        m
    }
}

} // verus!
