use todo_cli::{parse_command, split_words, zero_based, Command, IndexArg};

#[test]
fn parses_add_with_description() {
    assert_eq!(
        parse_command("todo add Buy milk\n"),
        Command::Add(Some(String::from("Buy milk")))
    );
}

#[test]
fn add_joins_words_with_single_spaces() {
    assert_eq!(
        parse_command("  todo   add  \"Buy\t  milk\"  "),
        Command::Add(Some(String::from("\"Buy milk\"")))
    );
}

#[test]
fn add_without_description() {
    assert_eq!(parse_command("todo add"), Command::Add(None));
}

#[test]
fn command_names_ignore_case() {
    assert_eq!(parse_command("TODO List"), Command::List);
    assert_eq!(parse_command("QUIT"), Command::Quit);
    assert_eq!(
        parse_command("Todo ADD Keep CASE"),
        Command::Add(Some(String::from("Keep CASE")))
    );
}

#[test]
fn list_ignores_extra_words() {
    assert_eq!(parse_command("todo list now"), Command::List);
}

#[test]
fn complete_and_delete_take_numbers_from_one() {
    assert_eq!(parse_command("todo complete 2"), Command::Complete(IndexArg::Index(1)));
    assert_eq!(parse_command("todo delete 1"), Command::Delete(IndexArg::Index(0)));
    assert_eq!(parse_command("todo delete +3"), Command::Delete(IndexArg::Index(2)));
}

#[test]
fn bad_or_missing_index() {
    assert_eq!(parse_command("todo complete"), Command::Complete(IndexArg::Missing));
    assert_eq!(parse_command("todo complete x"), Command::Complete(IndexArg::Invalid));
    assert_eq!(parse_command("todo delete 0"), Command::Delete(IndexArg::Invalid));
    assert_eq!(parse_command("todo delete -1"), Command::Delete(IndexArg::Invalid));
    assert_eq!(parse_command("todo delete 1 2"), Command::Delete(IndexArg::Invalid));
    assert_eq!(
        parse_command("todo complete 99999999999999999999999"),
        Command::Complete(IndexArg::Invalid)
    );
}

#[test]
fn largest_index_is_accepted() {
    let line = format!("todo complete {}", usize::MAX);
    assert_eq!(parse_command(&line), Command::Complete(IndexArg::Index(usize::MAX - 1)));
}

#[test]
fn unknown_or_empty_input_is_invalid() {
    assert_eq!(parse_command(""), Command::Invalid);
    assert_eq!(parse_command("   \n"), Command::Invalid);
    assert_eq!(parse_command("hello"), Command::Invalid);
    assert_eq!(parse_command("todo rename x"), Command::Invalid);
    assert_eq!(parse_command("quit now"), Command::Invalid);
}

#[test]
fn split_words_on_unicode_white_space() {
    assert_eq!(
        split_words(" a\u{3000}bc\n\td "),
        vec![String::from("a"), String::from("bc"), String::from("d")]
    );
    assert!(split_words("").is_empty());
}

#[test]
fn zero_based_numbers() {
    assert_eq!(zero_based(0), None);
    assert_eq!(zero_based(1), Some(0));
    assert_eq!(zero_based(usize::MAX), Some(usize::MAX - 1));
}
