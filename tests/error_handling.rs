use lox_lexer::{ErrorHandler, LineInformation};

fn input() -> String {
    "fn my_function() -> usize {\n    10 + 10\n}  // A function".to_string()
}

#[test]
fn test_get_error_message_first_token() {
    let input = input();
    let error_handler = ErrorHandler::new(&input);
    let li = LineInformation::new(0, 2);

    let msg = error_handler.get_error_message("An error occurred.", &li);

    assert_eq!(
        msg,
        "An error occurred.\n   |\n 1 | fn my_function() -> usize {\n   | ^^\n"
    )
}

#[test]
fn test_get_error_message_first_line() {
    let input = input();
    let error_handler = ErrorHandler::new(&input);
    let li = LineInformation::new(3, 13);

    let msg = error_handler.get_error_message("An error occurred.", &li);

    assert_eq!(
        msg,
        "An error occurred.\n   |\n 1 | fn my_function() -> usize {\n   |    ^^^^^^^^^^^^^\n"
    )
}

#[test]
fn test_get_error_message_first_token_second_line() {
    let input = input();
    let error_handler = ErrorHandler::new(&input);
    let li = LineInformation::new(28, 4);

    let msg = error_handler.get_error_message("An error occurred.", &li);

    assert_eq!(msg, "An error occurred.\n   |\n 2 |     10 + 10\n   | ^^^^\n")
}

#[test]
fn test_get_error_message_second_line() {
    let input = input();
    let error_handler = ErrorHandler::new(&input);
    let li = LineInformation::new(35, 1);

    let msg = error_handler.get_error_message("An error occurred.", &li);

    assert_eq!(msg, "An error occurred.\n   |\n 2 |     10 + 10\n   |        ^\n")
}

#[test]
fn test_get_error_message_last_line() {
    let input = input();
    let error_handler = ErrorHandler::new(&input);
    let li = LineInformation::new(43, 2);

    let msg = error_handler.get_error_message("An error occurred.", &li);

    assert_eq!(msg, "An error occurred.\n   |\n 3 | }  // A function\n   |    ^^\n")
}

#[test]
fn test_get_error_message_last_token_last_line() {
    let input = input();
    let error_handler = ErrorHandler::new(&input);
    let li = LineInformation::new(48, 8);

    let msg = error_handler.get_error_message("An error occurred.", &li);

    assert_eq!(
        msg,
        "An error occurred.\n   |\n 3 | }  // A function\n   |         ^^^^^^^^\n"
    )
}

#[test]
fn test_multiple_lines_error() {
    let input = input();
    let error_handler = ErrorHandler::new(&input);
    let li = LineInformation::new(37, 3);

    let msg = error_handler.get_error_message("An error occurred.", &li);

    assert_eq!(
        msg,
        "An error occurred.\n   |\n 2 |     10 + 10\n   |          ^^\n   | --> Error continues in next line.\n"
    )
}

#[test]
fn report_error_marks_region_crossing_a_line_break() {
    let input = input();
    let error_handler = ErrorHandler::new(&input);
    let msg = error_handler.report_error("Oops.", &LineInformation::new(37, 3));
    let lines: Vec<&str> = msg.lines().collect();
    assert_eq!(lines[2], " 2 |     10 + 10");
    assert_eq!(lines[3], "   |          ^^");
    assert_eq!(lines[4], "   | --> Error continues in next line.");
    assert_eq!(lines.len(), 5);
}

#[test]
fn report_error_at_end_of_buffer() {
    let input = input();
    let error_handler = ErrorHandler::new(&input);
    let msg = error_handler.report_error("End.", &LineInformation::new(56, 0));
    let expected = format!("End.\n   |\n 3 | }}  // A function\n   | {}\n", " ".repeat(16));
    assert_eq!(msg, expected);
}

#[test]
fn report_error_on_newline_names_the_line_it_ends() {
    let input = input();
    let error_handler = ErrorHandler::new(&input);
    let msg = error_handler.report_error("Here.", &LineInformation::new(27, 1));
    let expected = format!(
        "Here.\n   |\n 1 | fn my_function() -> usize {{\n   | {}\n   | --> Error continues in next line.\n",
        " ".repeat(27)
    );
    assert_eq!(msg, expected);
}

#[test]
fn report_error_widens_gutter_for_two_digit_lines() {
    let input = "a\nb\nc\nd\ne\nf\ng\nh\ni\nbad".to_string();
    let error_handler = ErrorHandler::new(&input);
    let msg = error_handler.report_error("Bad.", &LineInformation::new(18, 3));
    assert_eq!(msg, "Bad.\n    |\n 10 | bad\n    | ^^^\n");
}

#[test]
fn report_error_on_empty_source() {
    let input = String::new();
    let error_handler = ErrorHandler::new(&input);
    let msg = error_handler.report_error("Empty.", &LineInformation::new(0, 0));
    assert_eq!(msg, "Empty.\n   |\n 1 | \n   | \n");
}

#[test]
fn line_information_keeps_offset_and_length() {
    let li = LineInformation::new(7, 3);
    assert_eq!(li.offset(), 7);
    assert_eq!(li.length(), 3);
}
