use snakerobots::lang_error::{
    convert_error, convert_error_context, convert_error_context_multiple, convert_lang_error,
    create_error, ErrorContext, LangRobotError, RobotError, SpanType, SrLangError, SrLangErrorSpan,
};
use snakerobots::position::{get_index, get_line_and_column, line_window};

const CODE: &str = "fn step() {\n  return 1;\n}\n";

#[test]
fn line_and_column_of_offsets() {
    assert_eq!(get_line_and_column(CODE, 0), Some((0, 0)));
    assert_eq!(get_line_and_column(CODE, 3), Some((0, 3)));
    assert_eq!(get_line_and_column(CODE, 11), Some((0, 11)));
    assert_eq!(get_line_and_column(CODE, 12), Some((1, 0)));
    assert_eq!(get_line_and_column(CODE, 14), Some((1, 2)));
    assert_eq!(get_line_and_column(CODE, 26), Some((3, 0)));
    assert_eq!(get_line_and_column(CODE, 27), None);
    assert_eq!(get_line_and_column("", 0), Some((0, 0)));
    assert_eq!(get_line_and_column("", 1), None);
}

#[test]
fn columns_count_characters_not_bytes() {
    assert_eq!(get_line_and_column("äö\nü", 4), Some((1, 1)));
    assert_eq!(get_line_and_column("äö\nü", 5), None);
}

#[test]
fn index_of_line_and_column() {
    assert_eq!(get_index(CODE, 0, 0), 0);
    assert_eq!(get_index(CODE, 1, 2), 14);
    assert_eq!(get_index(CODE, 2, 0), 24);
    // past the last line the last line's start is used
    assert_eq!(get_index(CODE, 7, 1), 25);
    assert_eq!(get_index("", 3, 4), 4);
    assert_eq!(get_index("ab", 1, 0), 0);
}

#[test]
fn line_windows() {
    let w = line_window(CODE, 1);
    assert!(w.found);
    assert_eq!((w.start, w.len), (12, 12));
    let w = line_window(CODE, 3);
    assert!(w.found);
    assert_eq!((w.start, w.len), (24, 2));
    let w = line_window(CODE, 4);
    assert!(!w.found);
    let w = line_window("abc", 0);
    assert!(w.found);
    assert_eq!((w.start, w.len), (0, 3));
}

#[test]
fn span_of_segment() {
    let span = SrLangErrorSpan::from_context(&SpanType::Segment { from: 14, to: 20 }, CODE).unwrap();
    assert_eq!(
        span,
        SrLangErrorSpan { line_from: 1, line_to: 1, column_from: 2, column_to: 8, char_from: 14, char_to: 20 }
    );
    assert_eq!(SrLangErrorSpan::from_context(&SpanType::Segment { from: 14, to: 99 }, CODE), None);
}

#[test]
fn span_of_line() {
    let span = SrLangErrorSpan::from_context(&SpanType::Line(1), CODE).unwrap();
    assert_eq!(
        span,
        SrLangErrorSpan { line_from: 1, line_to: 1, column_from: 0, column_to: 12, char_from: 12, char_to: 24 }
    );
    // one past the last line gives the last line's window
    let span = SrLangErrorSpan::from_context(&SpanType::Line(3), CODE).unwrap();
    assert_eq!((span.line_from, span.char_from, span.char_to), (3, 24, 26));
    assert_eq!(SrLangErrorSpan::from_context(&SpanType::Line(4), CODE), None);
    assert_eq!(SrLangErrorSpan::from_context(&SpanType::Unknown, CODE), None);
    let span = SrLangErrorSpan::from_context(&SpanType::Line(0), "").unwrap();
    assert_eq!((span.column_to, span.char_from, span.char_to), (0, 0, 0));
}

fn ctx(span_type: SpanType, message: &str) -> ErrorContext {
    ErrorContext { span_type, message: message.to_string() }
}

#[test]
fn converting_messages() {
    let e = convert_error_context(CODE, &ctx(SpanType::Line(0), "bad"));
    assert_eq!(e.message, "bad");
    assert_eq!(e.span.unwrap().char_to, 12);

    let v = convert_error_context_multiple(CODE, &vec![ctx(SpanType::Unknown, "a"), ctx(SpanType::Line(2), "b")]);
    assert_eq!(v.len(), 2);
    assert!(v[0].span.is_none());
    assert_eq!(v[1].message, "b");
    assert_eq!(v[1].span.unwrap().line_from, 2);

    let one = create_error("oops");
    assert_eq!(one.len(), 1);
    assert_eq!(one[0].message, "oops");
    assert!(one[0].span.is_none());
    let e = SrLangError::create("x");
    assert_eq!(e.message, "x");
}

#[test]
fn lang_error_texts() {
    assert_eq!(LangRobotError::Compile(vec![]).to_string(), "unknown error");
    assert_eq!(LangRobotError::Compile(vec![ctx(SpanType::Unknown, "first"), ctx(SpanType::Unknown, "second")]).to_string(), "first");
    assert_eq!(LangRobotError::Runtime(ctx(SpanType::Unknown, "boom")).to_string(), "boom");
    assert_eq!(LangRobotError::Return(String::from("not an int")).to_string(), "not an int");
    assert_eq!(LangRobotError::InvalidDirection.to_string(), "invalid direction");
}

#[test]
fn converting_robot_errors() {
    let v = convert_lang_error(CODE, &LangRobotError::Compile(vec![ctx(SpanType::Segment { from: 0, to: 2 }, "c")]));
    assert_eq!(v.len(), 1);
    assert_eq!(v[0].span.unwrap().column_to, 2);
    let v = convert_lang_error(CODE, &LangRobotError::Runtime(ctx(SpanType::Line(1), "r")));
    assert_eq!(v[0].span.unwrap().line_from, 1);
    let v = convert_lang_error(CODE, &LangRobotError::InvalidDirection);
    assert_eq!(v[0].message, "invalid direction");
    assert!(v[0].span.is_none());
    let v = convert_error(CODE, &RobotError::Other(String::from("replay finished")));
    assert_eq!(v.len(), 1);
    assert_eq!(v[0].message, "replay finished");
    let v = convert_error(CODE, &RobotError::Lang(LangRobotError::Return(String::from("bad return"))));
    assert_eq!(v[0].message, "bad return");
}

#[test]
fn index_and_position_agree() {
    let code = "ab\n\ncde\nf";
    for line in 0..4usize {
        let w = line_window(code, line);
        for col in 0..w.len {
            let i = get_index(code, line, col);
            assert_eq!(get_line_and_column(code, i), Some((line as i64, col as i64)));
        }
    }
}

#[test]
fn end_of_last_line_round_trips() {
    let code = "ab\ncd";
    let i = get_index(code, 1, 2);
    assert_eq!(i, 5);
    assert_eq!(get_line_and_column(code, i), Some((1, 2)));
    let i = get_index(code, 0, 2);
    assert_eq!(get_line_and_column(code, i), Some((0, 2)));
}
