use cheat_codes::console::{parse_args, parse_command, Command};

#[test]
fn cheat_command_takes_its_phrase() {
    match parse_command("cheat dawn-till-kick") {
        Command::Cheat(Some(p)) => assert_eq!(p, "dawn-till-kick"),
        other => panic!("unexpected {:?}", other),
    }
}

#[test]
fn cheat_without_phrase() {
    assert!(matches!(parse_command("cheat"), Command::Cheat(None)));
}

#[test]
fn line_is_trimmed_before_reading() {
    assert!(matches!(parse_command("   log  "), Command::Log));
    assert!(matches!(parse_command("\thelp\n"), Command::Help));
}

#[test]
fn keywords() {
    assert!(matches!(parse_command("clear"), Command::Clear));
    assert!(matches!(parse_command("help"), Command::Help));
    assert!(matches!(parse_command("exit"), Command::Exit));
    assert!(matches!(parse_command("log"), Command::Log));
}

#[test]
fn empty_line() {
    assert!(matches!(parse_command(""), Command::Empty));
}

#[test]
fn unknown_command_names_its_first_word() {
    match parse_command("dance now") {
        Command::Unknown(w) => assert_eq!(w, "dance"),
        other => panic!("unexpected {:?}", other),
    }
}

#[test]
fn parse_args_splits_on_single_spaces() {
    match parse_args("cheat  dawn") {
        Command::Cheat(Some(p)) => assert_eq!(p, ""),
        other => panic!("unexpected {:?}", other),
    }
    match parse_args("Help") {
        Command::Unknown(w) => assert_eq!(w, "Help"),
        other => panic!("unexpected {:?}", other),
    }
}
