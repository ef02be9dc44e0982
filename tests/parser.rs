use char_grid::{command_from_input, parse_to_command, Commands, ErrorKind, ParseError, Point, Shape};

fn parse(s: &str) -> Result<Commands, ParseError> {
    parse_to_command(s.to_string())
}

#[test]
fn fill_one_char() {
    assert_eq!(parse("fill #"), Ok(Commands::Fill('#')));
}

#[test]
fn fill_two_chars_is_too_many() {
    assert_eq!(parse("fill ##"), Err(ParseError::TooManyArguments("##".to_string())));
}

#[test]
fn fill_nothing_is_missing() {
    assert_eq!(parse("fill "), Err(ParseError::MissingArguments("fill ".to_string())));
}

#[test]
fn new_zero_height_is_non_positive() {
    assert_eq!(parse("new 5 0"), Err(ParseError::NonPositiveInteger("5 0".to_string())));
}

#[test]
fn new_letter_is_not_number() {
    assert_eq!(parse("new 5 a"), Err(ParseError::NotNumber("5 a".to_string())));
}

#[test]
fn new_window_ok() {
    assert_eq!(parse("new 5 7"), Ok(Commands::New(5, 7)));
    assert_eq!(parse("new +5 007"), Ok(Commands::New(5, 7)));
}

#[test]
fn new_arity() {
    assert_eq!(parse("new 5"), Err(ParseError::MissingArguments("new 5".to_string())));
    assert_eq!(parse("new 5 6 7"), Err(ParseError::TooManyArguments("new 5 6 7".to_string())));
}

#[test]
fn new_number_out_of_range() {
    assert_eq!(
        parse("new 99999999999999999999 1"),
        Err(ParseError::NotNumber("99999999999999999999 1".to_string()))
    );
}

#[test]
fn resize_one_number_is_missing() {
    assert_eq!(parse("resize 3"), Err(ParseError::MissingArguments("resize 3".to_string())));
}

#[test]
fn resize_ok_and_negative() {
    assert_eq!(parse("resize 3 4"), Ok(Commands::Resize(3, 4)));
    assert_eq!(parse("resize +4 -2"), Err(ParseError::NonPositiveInteger("+4 -2".to_string())));
    assert_eq!(parse("resize - 2"), Err(ParseError::NotNumber("- 2".to_string())));
}

#[test]
fn zero_argument_commands() {
    assert_eq!(parse("quit"), Ok(Commands::Quit));
    assert_eq!(parse("print"), Ok(Commands::Print));
    assert_eq!(parse("help"), Ok(Commands::Help));
    assert_eq!(parse("clear"), Ok(Commands::Clear));
    assert_eq!(parse("list"), Ok(Commands::List));
}

#[test]
fn unknown_keyword() {
    assert_eq!(parse("frobnicate"), Err(ParseError::InvalidCommand("frobnicate".to_string())));
    assert_eq!(parse("print now"), Err(ParseError::InvalidCommand("print now".to_string())));
    assert_eq!(parse(""), Err(ParseError::InvalidCommand("".to_string())));
    assert_eq!(parse("Quit"), Err(ParseError::InvalidCommand("Quit".to_string())));
}

#[test]
fn replace_cases() {
    assert_eq!(parse("replace a b"), Ok(Commands::Replace('a', 'b')));
    assert_eq!(parse("replace é ü"), Ok(Commands::Replace('é', 'ü')));
    assert_eq!(parse("replace a"), Err(ParseError::MissingArguments("replace a".to_string())));
    assert_eq!(parse("replace a b c"), Err(ParseError::TooManyArguments("replace a b c".to_string())));
    assert_eq!(parse("replace ab c"), Err(ParseError::TooManyArguments("replace ab c".to_string())));
    assert_eq!(parse("replace  c"), Err(ParseError::MissingArguments("replace  c".to_string())));
}

#[test]
fn draw_cases() {
    assert_eq!(parse("draw 0 -1 2 x"), Ok(Commands::Draw(0, Point::new(-1, 2), 'x')));
    assert_eq!(parse("draw -1 0 0 x"), Err(ParseError::NotNumber("-1".to_string())));
    assert_eq!(parse("draw 0 q 0 x"), Err(ParseError::NotNumber("q".to_string())));
    assert_eq!(parse("draw 0 0 1.5 x"), Err(ParseError::NotNumber("1.5".to_string())));
    assert_eq!(parse("draw 0 1 2 xy"), Err(ParseError::TooManyArguments("draw 0 1 2 xy".to_string())));
    assert_eq!(parse("draw 0 1 2"), Err(ParseError::MissingArguments("draw 0 1 2".to_string())));
    assert_eq!(parse("draw 0 1 2 x y"), Err(ParseError::TooManyArguments("draw 0 1 2 x y".to_string())));
}

#[test]
fn new_shape_cases() {
    assert_eq!(parse("new shape circle 3"), Ok(Commands::NewShape(Shape::Circle(3))));
    assert_eq!(parse("new shape square 2 4"), Ok(Commands::NewShape(Shape::Square(2, 4))));
    assert_eq!(parse("new shape circle 0"), Err(ParseError::NonPositiveInteger("shape circle 0".to_string())));
    assert_eq!(parse("new shape circle"), Err(ParseError::MissingArguments("new shape circle".to_string())));
    assert_eq!(parse("new shape"), Err(ParseError::MissingArguments("new shape".to_string())));
    assert_eq!(parse("new shape triangle 3"), Err(ParseError::InvalidShapeType("triangle".to_string())));
    assert_eq!(parse("new shape square 2 x"), Err(ParseError::NotNumber("x".to_string())));
    assert_eq!(parse("new shape square 2 3 4"), Err(ParseError::TooManyArguments("new shape square 2 3 4".to_string())));
}

#[test]
fn input_is_trimmed_first() {
    assert_eq!(command_from_input("  fill #  \n".to_string()), Ok(Commands::Fill('#')));
    assert_eq!(command_from_input("\tquit\r\n".to_string()), Ok(Commands::Quit));
    assert_eq!(command_from_input(" nope \n".to_string()), Err(ParseError::InvalidCommand("nope".to_string())));
}

#[test]
fn error_messages() {
    let e = ParseError::NotNumber("a".to_string());
    assert_eq!(e.message(), "\"a\", not a valid number!");
    assert_eq!(e.kind(), ErrorKind::NotNumber);
    assert_eq!(e.text(), "a");
    assert_eq!(
        ParseError::InvalidCommand("x y".to_string()).message(),
        "\"x y\" is not a valid command.!"
    );
    assert_eq!(
        ParseError::NonPositiveInteger("0".to_string()).message(),
        "\"0\", can't have numbers below 1!"
    );
}

#[test]
fn unknown_command_message() {
    let e = parse("frobnicate").unwrap_err();
    assert_eq!(e.message(), "\"frobnicate\" is not a valid command.!");
}

#[test]
fn trim_removes_unicode_white_space_only() {
    assert_eq!(command_from_input("\u{3000}quit\u{a0}\u{2029}".to_string()), Ok(Commands::Quit));
    assert_eq!(command_from_input("\u{85}fill #\u{202f}".to_string()), Ok(Commands::Fill('#')));
    assert_eq!(
        command_from_input("\u{200b}quit".to_string()),
        Err(ParseError::InvalidCommand("\u{200b}quit".to_string()))
    );
    assert_eq!(command_from_input(" \t\n".to_string()), Err(ParseError::InvalidCommand("".to_string())));
}
