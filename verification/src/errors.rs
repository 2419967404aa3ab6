//! The errors that a registry reports in the body of an answer.

use vstd::prelude::*;

verus! {

/// One error of an answer: a code, and a message and a detail where the
/// registry gives them.
#[derive(Debug, Clone)]
pub struct ApiError {
    code: String,
    message: Option<String>,
    detail: Option<String>,
}

/// An optional text as a mathematical value.
pub open spec fn text_view(t: Option<String>) -> Option<Seq<char>> {
    match t {
        Some(s) => Some(s@),
        None => None,
    }
}

/// An `ApiError` as a mathematical value.
pub struct ApiErrorView {
    pub code: Seq<char>,
    pub message: Option<Seq<char>>,
    pub detail: Option<Seq<char>>,
}

impl View for ApiError {
    type V = ApiErrorView;

    closed spec fn view(&self) -> ApiErrorView {
        ApiErrorView {
            code: self.code@,
            message: text_view(self.message),
            detail: text_view(self.detail),
        }
    }
}

impl ApiError {
    /// An error of the given code, message and detail.
    pub fn new(code: String, message: Option<String>, detail: Option<String>) -> (e: ApiError)
        ensures
            e@ == (ApiErrorView {
                code: code@,
                message: text_view(message),
                detail: text_view(detail),
            }),
    {
        ApiError { code, message, detail }
    }

    /// The code of the error.
    pub fn code(&self) -> (r: &str)
        ensures
            r@ == self@.code,
    {
        self.code.as_str()
    }

    /// The message of the error, where it has one.
    pub fn message(&self) -> (r: Option<&str>)
        ensures
            match r {
                Some(m) => self@.message == Some(m@),
                None => self@.message is None,
            },
    {
        match &self.message {
            Some(m) => Some(m.as_str()),
            None => None,
        }
    }

    /// The detail of the error, as the registry wrote it, where it has one.
    pub fn detail(&self) -> (r: Option<&str>)
        ensures
            match r {
                Some(d) => self@.detail == Some(d@),
                None => self@.detail is None,
            },
    {
        match &self.detail {
            Some(d) => Some(d.as_str()),
            None => None,
        }
    }
}

/// The errors of one answer, in the order in which the registry lists them.
#[derive(Debug, Clone)]
pub struct ApiErrors {
    errors: Vec<ApiError>,
}

impl ApiErrors {
    /// The errors as mathematical values.
    pub closed spec fn listed(&self) -> Seq<ApiErrorView> {
        Seq::new(self.errors@.len(), |i: int| self.errors@[i]@)
    }

    /// The errors of one answer.
    pub fn new(errors: Vec<ApiError>) -> (r: ApiErrors)
        ensures
            r.listed() == Seq::new(errors@.len(), |i: int| errors@[i]@),
    {
        ApiErrors { errors }
    }

    /// The errors, in the order in which the registry lists them.
    pub fn errors(&self) -> (r: &Vec<ApiError>)
        ensures
            Seq::new(r@.len(), |i: int| r@[i]@) == self.listed(),
    {
        &self.errors
    }
}

/// Whether a status reports success: it lies in 200 to 299.
pub fn is_success(status: u16) -> (r: bool)
    ensures
        r == (200 <= status <= 299),
{
    200 <= status && status <= 299
}

} // verus!
