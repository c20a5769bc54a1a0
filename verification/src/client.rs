//! Values that the game client hands to its user interface: results,
//! errors and completions.

use vstd::prelude::*;
use crate::lang_error::SrLangError;

verus! {

/// An error of a request to the game server: a short code and a message.
#[derive(Debug, Clone)]
pub struct SrClientError {
    pub code: String,
    pub message: String,
}

/// The text `{code="<code>",message="<message>"}`.
pub open spec fn spec_client_error_text(code: Seq<char>, message: Seq<char>) -> Seq<char> {
    "{code=\""@ + code + "\",message=\""@ + message + "\"}"@
}

impl SrClientError {
    pub fn new(code: &str, message: &str) -> (e: Self)
        ensures
            e.code@ == code@,
            e.message@ == message@,
    {
        Self { code: String::from_str(code), message: String::from_str(message) }
    }

    /// An error of code `unknown`.
    pub fn unknown(message: &str) -> (e: Self)
        ensures
            e.code@ == "unknown"@,
            e.message@ == message@,
    {
        Self::new("unknown", message)
    }

    /// The error of a request that needs a logged-in user.
    pub fn unauthorized() -> (e: Self)
        ensures
            e.code@ == "unauthorized"@,
            e.message@ == "Unauthorized"@,
    {
        Self::new("unauthorized", "Unauthorized")
    }

    /// The error as text: `{code="<code>",message="<message>"}`.
    pub fn to_string(&self) -> (s: String)
        ensures
            s@ == spec_client_error_text(self.code@, self.message@),
    {
        let mut s = String::from_str("{code=\"");
        s.append(self.code.as_str());
        s.append("\",message=\"");
        s.append(self.message.as_str());
        s.append("\"}");
        s
    }
}

/// The outcome of an action of the user interface: a value or an error.
#[derive(Debug, Clone)]
pub struct SrResult<V, E> {
    pub value: Option<V>,
    pub err: Option<E>,
}

impl<V, E> SrResult<V, E> {
    pub fn value(value: V) -> (r: Self)
        ensures
            r.value == Some(value),
            r.err is None,
    {
        SrResult { value: Some(value), err: None }
    }

    pub fn err(err: E) -> (r: Self)
        ensures
            r.value is None,
            r.err == Some(err),
    {
        SrResult { value: None, err: Some(err) }
    }

    /// The value of `Ok`, or the error of `Err`.
    pub fn from(result: Result<V, E>) -> (r: Self)
        ensures
            r == spec_sr_result_from(result),
    {
        match result {
            Ok(v) => Self::value(v),
            Err(e) => Self::err(e),
        }
    }

    /// The outcome of running `f`.
    pub fn run<F: FnOnce() -> Result<V, E>>(f: F) -> (r: Self)
        requires
            f.requires(()),
        ensures
            exists|res: Result<V, E>| f.ensures((), res) && r == spec_sr_result_from(res),
    {
        let res = f();
        Self::from(res)
    }
}

pub open spec fn spec_sr_result_from<V, E>(result: Result<V, E>) -> SrResult<V, E> {
    match result {
        Ok(v) => SrResult { value: Some(v), err: None },
        Err(e) => SrResult { value: None, err: Some(e) },
    }
}

/// The opponent of a local game: the built-in path finder, the player's own
/// code, or other code.
#[derive(Debug, Clone, Copy, PartialEq, Eq, Structural, Default)]
pub enum SrLocalGameOpponent {
    #[default]
    Simple,
    Mirror,
    Code,
}

/// An error with only a message.
#[derive(Debug, Clone)]
pub struct SrGenericError {
    pub message: String,
}

impl SrGenericError {
    pub fn create(message: String) -> (e: Self)
        ensures
            e.message == message,
    {
        Self { message }
    }
}

/// A completion that the code editor offers: the text and its kind.
#[derive(Debug, Clone)]
pub struct SrLangLintCompletion {
    pub value: String,
    pub completion_type: String,
}

impl SrLangLintCompletion {
    pub fn create(value: String, completion_type: &str) -> (c: Self)
        ensures
            c.value == value,
            c.completion_type@ == completion_type@,
    {
        Self { value, completion_type: String::from_str(completion_type) }
    }
}

/// What the linter reports for code being edited.
#[derive(Debug)]
pub struct SrLangLintOutput {
    pub completions: Vec<SrLangLintCompletion>,
    pub errors: Vec<SrLangError>,
}

} // verus!
