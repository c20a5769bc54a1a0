use snakerobots::client::{SrClientError, SrGenericError, SrLangLintCompletion, SrResult};
use snakerobots::route_error::{first_message_from_validation, RouteError, ValidationErrors, ValidationErrorsKind};
use snakerobots::validation::{validate_non_control_chars, validate_username_chars};

#[test]
fn client_errors() {
    let e = SrClientError::new("username_taken", "This username is already taken");
    assert_eq!(e.to_string(), "{code=\"username_taken\",message=\"This username is already taken\"}");
    let e = SrClientError::unauthorized();
    assert_eq!((e.code.as_str(), e.message.as_str()), ("unauthorized", "Unauthorized"));
    let e = SrClientError::unknown("500: oops");
    assert_eq!(e.to_string(), "{code=\"unknown\",message=\"500: oops\"}");
}

#[test]
fn results() {
    let r: SrResult<i32, String> = SrResult::from(Ok(3));
    assert_eq!((r.value, r.err), (Some(3), None));
    let r: SrResult<i32, String> = SrResult::from(Err(String::from("no")));
    assert_eq!((r.value, r.err), (None, Some(String::from("no"))));
    let r: SrResult<i32, String> = SrResult::run(|| Ok(5));
    assert_eq!(r.value, Some(5));
    let g = SrGenericError::create(String::from("m"));
    assert_eq!(g.message, "m");
    let c = SrLangLintCompletion::create(String::from("step"), "function");
    assert_eq!((c.value.as_str(), c.completion_type.as_str()), ("step", "function"));
}

fn field(msgs: &[Option<&str>]) -> ValidationErrorsKind {
    ValidationErrorsKind::Field(msgs.iter().map(|m| m.map(String::from)).collect())
}

#[test]
fn first_validation_message() {
    let empty = ValidationErrors { kinds: vec![] };
    assert_eq!(first_message_from_validation(&empty), None);
    let nested = ValidationErrors {
        kinds: vec![
            field(&[None]),
            ValidationErrorsKind::List(vec![
                ValidationErrors { kinds: vec![field(&[None, None])] },
                ValidationErrors {
                    kinds: vec![ValidationErrorsKind::Struct(Box::new(ValidationErrors {
                        kinds: vec![field(&[Some("deep")])],
                    }))],
                },
            ]),
            field(&[Some("later")]),
        ],
    };
    assert_eq!(first_message_from_validation(&nested).as_deref(), Some("deep"));
    let r = RouteError::validation(&nested);
    assert_eq!((r.code, r.error.as_str(), r.message.as_str()), (400, "validation", "deep"));
    let r = RouteError::validation(&ValidationErrors { kinds: vec![field(&[None])] });
    assert_eq!(r.message, "Invalid input");
}

#[test]
fn route_errors() {
    let r = RouteError::not_found();
    assert_eq!((r.code, r.error.as_str(), r.message.as_str()), (404, "not_found", "Not Found"));
    let r = RouteError::internal(String::from("db down"));
    assert_eq!((r.code, r.error.as_str(), r.message.as_str()), (500, "internal", "Something went wrong"));
    assert_eq!(r.report.as_deref(), Some("db down"));
    let r = RouteError::new(409, "username_taken", "This username is already taken");
    assert_eq!(r.code, 409);
    assert!(r.report.is_none());
}

#[test]
fn character_rules() {
    assert!(validate_username_chars("snake_42").is_ok());
    assert!(validate_username_chars("Ünïcödé").is_err());
    assert!(validate_username_chars("Ab").is_err());
    assert!(validate_username_chars("az_09").is_ok());
    let e = validate_username_chars("bad name").unwrap_err();
    assert_eq!(e.code, "chars");
    assert!(validate_username_chars("a-b").is_err());
    assert!(validate_non_control_chars("pass word!").is_ok());
    assert!(validate_non_control_chars("tab\there").is_err());
    assert!(validate_non_control_chars("bell\u{7}").is_err());
    assert!(validate_non_control_chars("c1\u{85}").is_err());
}
