//! The error answers of the HTTP interface and the message shown for input
//! that fails validation.

use vstd::prelude::*;

verus! {

/// Validation failures, as the field validators report them: per field or
/// nested structure, in the order the report lists them.
#[derive(Debug)]
pub struct ValidationErrors {
    pub kinds: Vec<ValidationErrorsKind>,
}

/// The failures of one field or nested structure.
#[derive(Debug)]
pub enum ValidationErrorsKind {
    /// A nested structure's failures.
    Struct(Box<ValidationErrors>),
    /// The failures of the elements of a list, by position.
    List(Vec<ValidationErrors>),
    /// A field's failures, each with its message if it has one.
    Field(Vec<Option<String>>),
}

/// The first message in a report, searching depth first in report order.
pub open spec fn first_message(e: ValidationErrors) -> Option<Seq<char>>
    decreases e, 0nat,
{
    first_message_in_kinds(e.kinds@, 0)
}

pub open spec fn first_message_in_kinds(ks: Seq<ValidationErrorsKind>, i: int) -> Option<Seq<char>>
    decreases ks, if i < ks.len() { (ks.len() - i) as nat } else { 0nat },
{
    if 0 <= i < ks.len() {
        match first_message_in_kind(ks[i]) {
            Some(m) => Some(m),
            None => first_message_in_kinds(ks, i + 1),
        }
    } else {
        None
    }
}

pub open spec fn first_message_in_kind(k: ValidationErrorsKind) -> Option<Seq<char>>
    decreases k, 0nat,
{
    match k {
        ValidationErrorsKind::Struct(b) => first_message(*b),
        ValidationErrorsKind::List(v) => first_message_in_list(v@, 0),
        ValidationErrorsKind::Field(v) => first_message_in_fields(v@, 0),
    }
}

pub open spec fn first_message_in_list(ls: Seq<ValidationErrors>, i: int) -> Option<Seq<char>>
    decreases ls, if i < ls.len() { (ls.len() - i) as nat } else { 0nat },
{
    if 0 <= i < ls.len() {
        match first_message(ls[i]) {
            Some(m) => Some(m),
            None => first_message_in_list(ls, i + 1),
        }
    } else {
        None
    }
}

pub open spec fn first_message_in_fields(fs: Seq<Option<String>>, i: int) -> Option<Seq<char>>
    decreases if i < fs.len() { (fs.len() - i) as nat } else { 0nat },
{
    if 0 <= i < fs.len() {
        match fs[i] {
            Some(m) => Some(m@),
            None => first_message_in_fields(fs, i + 1),
        }
    } else {
        None
    }
}

/// The first message in a report, searching depth first in report order.
pub fn first_message_from_validation(errors: &ValidationErrors) -> (m: Option<String>)
    ensures
        match m {
            Some(s) => first_message(*errors) == Some(s@),
            None => first_message(*errors) is None,
        },
    decreases *errors,
{
    let mut i: usize = 0;
    while i < errors.kinds.len()
        invariant
            0 <= i <= errors.kinds@.len(),
            first_message(*errors) == first_message_in_kinds(errors.kinds@, i as int),
        decreases errors.kinds@.len() - i,
    {
        let ghost ks = errors.kinds@;
        proof {
            assert(decreases_to!(*errors => errors.kinds));
        }
        match &errors.kinds[i] {
            ValidationErrorsKind::Field(errs) => {
                let mut j: usize = 0;
                while j < errs.len()
                    invariant
                        0 <= j <= errs@.len(),
                        ks == errors.kinds@,
                        0 <= i < ks.len(),
                        ks[i as int] == ValidationErrorsKind::Field(*errs),
                        first_message(*errors) == first_message_in_kinds(ks, i as int),
                        first_message_in_kind(ks[i as int]) == first_message_in_fields(errs@, j as int),
                    decreases errs@.len() - j,
                {
                    match &errs[j] {
                        Some(msg) => {
                            return Some(msg.clone());
                        },
                        None => {},
                    }
                    j = j + 1;
                }
            },
            ValidationErrorsKind::List(list) => {
                let mut j: usize = 0;
                while j < list.len()
                    invariant
                        0 <= j <= list@.len(),
                        ks == errors.kinds@,
                        0 <= i < ks.len(),
                        ks[i as int] == ValidationErrorsKind::List(*list),
                        first_message(*errors) == first_message_in_kinds(ks, i as int),
                        first_message_in_kind(ks[i as int]) == first_message_in_list(list@, j as int),
                    decreases list@.len() - j,
                {
                    proof {
                        assert(decreases_to!(*errors => errors.kinds));
                        assert(decreases_to!(errors.kinds => errors.kinds@));
                        assert(decreases_to!(errors.kinds@ => errors.kinds@[i as int]));
                        assert(decreases_to!(errors.kinds@[i as int] => *list));
                        assert(decreases_to!(*list => list@));
                        assert(decreases_to!(list@ => list@[j as int]));
                        assert(decreases_to!(*errors => list@[j as int]));
                    }
                    match first_message_from_validation(&list[j]) {
                        Some(msg) => {
                            return Some(msg);
                        },
                        None => {},
                    }
                    j = j + 1;
                }
            },
            ValidationErrorsKind::Struct(inner) => {
                proof {
                    assert(decreases_to!(*errors => **inner));
                }
                match first_message_from_validation(inner) {
                    Some(msg) => {
                        return Some(msg);
                    },
                    None => {},
                }
            },
        }
        i = i + 1;
    }
    None
}

/// An error answer: the HTTP status, a short error code, a message for the
/// user, and for internal errors a report for the log.
#[derive(Debug)]
pub struct RouteError {
    pub code: u16,
    pub error: String,
    pub message: String,
    pub report: Option<String>,
}

impl RouteError {
    pub fn new(code: u16, error: &str, message: &str) -> (r: Self)
        ensures
            r.code == code,
            r.error@ == error@,
            r.message@ == message@,
            r.report is None,
    {
        RouteError {
            code,
            error: String::from_str(error),
            message: String::from_str(message),
            report: None,
        }
    }

    /// 404, `not_found`.
    pub fn not_found() -> (r: Self)
        ensures
            r.code == 404,
            r.error@ == "not_found"@,
            r.message@ == "Not Found"@,
            r.report is None,
    {
        Self::new(404, "not_found", "Not Found")
    }

    /// 500, `internal`, with the report kept for the log.
    pub fn internal(report: String) -> (r: Self)
        ensures
            r.code == 500,
            r.error@ == "internal"@,
            r.message@ == "Something went wrong"@,
            r.report == Some(report),
    {
        RouteError {
            code: 500,
            error: String::from_str("internal"),
            message: String::from_str("Something went wrong"),
            report: Some(report),
        }
    }

    /// 400, `validation`, with the first message of the report, or "Invalid
    /// input" when it has none.
    pub fn validation(errors: &ValidationErrors) -> (r: Self)
        ensures
            r.code == 400,
            r.error@ == "validation"@,
            r.message@ == (match first_message(*errors) {
                Some(m) => m,
                None => "Invalid input"@,
            }),
            r.report is None,
    {
        let message = match first_message_from_validation(errors) {
            Some(m) => m,
            None => String::from_str("Invalid input"),
        };
        Self::new(400, "validation", message.as_str())
    }
}

} // verus!
