use password_generator::interact::{dispatch_command, should_restart, trim_newline, Command};

#[test]
fn quit_words_quit() {
    assert_eq!(dispatch_command(&"quit".to_string()), Command::Quit);
    assert_eq!(dispatch_command(&"!quit".to_string()), Command::Quit);
    assert_eq!(dispatch_command(&"q".to_string()), Command::Quit);
}

#[test]
fn help_words_help_and_generate_nothing() {
    assert_eq!(dispatch_command(&"help".to_string()), Command::Help);
    assert_eq!(dispatch_command(&"!help".to_string()), Command::Help);
    assert_eq!(dispatch_command(&"h".to_string()), Command::Help);
}

#[test]
fn other_lines_generate() {
    assert_eq!(dispatch_command(&"".to_string()), Command::Generate);
    assert_eq!(dispatch_command(&"size=8".to_string()), Command::Generate);
    assert_eq!(dispatch_command(&"Quit".to_string()), Command::Generate);
    assert_eq!(dispatch_command(&" help".to_string()), Command::Generate);
}

#[test]
fn restart_on_any_r() {
    assert!(should_restart(&"r".to_string()));
    assert!(should_restart(&"R".to_string()));
    assert!(should_restart(&"sure".to_string()));
    assert!(should_restart(&"YES R".to_string()));
}

#[test]
fn leave_without_r() {
    assert!(!should_restart(&"no".to_string()));
    assert!(!should_restart(&"".to_string()));
    assert!(!should_restart(&"yes".to_string()));
}

#[test]
fn trimming_line_endings() {
    assert_eq!(trim_newline(&"abc\r\n".to_string()).as_str(), "abc");
    assert_eq!(trim_newline(&"abc\n".to_string()).as_str(), "abc");
    assert_eq!(trim_newline(&"abc\r".to_string()).as_str(), "abc");
    assert_eq!(trim_newline(&"abc".to_string()).as_str(), "abc");
    assert_eq!(trim_newline(&"\n".to_string()).as_str(), "");
    assert_eq!(trim_newline(&"".to_string()).as_str(), "");
}
