use dsa_cli::util::{
    invalid_argument, replace_first, uppercase_first, Error, ErrorType, IOErrorType,
    InputErrorType,
};

#[test]
fn an_error_keeps_its_message_and_its_category() {
    let error = Error::new(String::from("nothing there"), ErrorType::IO(IOErrorType::MissingFile));
    assert_eq!(error.message(), "nothing there");
    assert_eq!(*error.err_type(), ErrorType::IO(IOErrorType::MissingFile));
    let unknown = Error::new(String::new(), ErrorType::Unknown);
    assert_eq!(unknown.message(), "");
    assert_eq!(*unknown.err_type(), ErrorType::Unknown);
}

#[test]
fn invalid_arguments_are_reported_with_prefix_and_detail() {
    let error = invalid_argument("Unable to parse number \"", "x\"");
    assert_eq!(error.message(), "Unable to parse number \"x\"");
    assert_eq!(*error.err_type(), ErrorType::InvalidInput(InputErrorType::InvalidArgument));
}

#[test]
fn the_first_character_is_put_in_capital_form() {
    assert_eq!(uppercase_first("klettern"), "Klettern");
    assert_eq!(uppercase_first("Klettern"), "Klettern");
    assert_eq!(uppercase_first("k"), "K");
    assert_eq!(uppercase_first(""), "");
    assert_eq!(uppercase_first("über mut"), "Über mut");
    assert_eq!(uppercase_first("ßen"), "SSen");
    assert_eq!(uppercase_first("1a"), "1a");
}

#[test]
fn the_first_character_is_replaced() {
    assert_eq!(replace_first("abc", "XY"), "XYbc");
    assert_eq!(replace_first("a", ""), "");
    assert_eq!(replace_first("", "XY"), "");
    assert_eq!(replace_first("äb", "A"), "Ab");
}
