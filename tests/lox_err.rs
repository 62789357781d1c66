use lox::lox_err::LoxErr;

#[test]
fn lox_err_new() {
    let error = LoxErr::new(11, String::from("testing..."));
    let expected_err = LoxErr {
        line: 11,
        message: String::from("testing..."),
    };

    assert_eq!(error.line, expected_err.line);
    assert_eq!(error.message, expected_err.message);
}

#[test]
fn display_message() {
    let error = LoxErr::new(11, String::from("testing..."));
    let expected_message = String::from("[Line 11] Error: testing...");
    assert_eq!(error.display_message(), expected_message);
}

#[test]
fn display_message_of_line_zero_and_large_lines() {
    assert_eq!(LoxErr::new(0, String::from("x")).display_message(), "[Line 0] Error: x");
    assert_eq!(
        LoxErr::new(1203, String::from("")).display_message(),
        "[Line 1203] Error: "
    );
    assert_eq!(
        LoxErr::new(usize::MAX, String::from("m")).display_message(),
        format!("[Line {}] Error: m", usize::MAX)
    );
}
