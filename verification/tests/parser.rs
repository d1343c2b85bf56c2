use password_generator::options::{FileFormat, GenerationRequest, ParseError, Password};

fn parse_ok(line: &str) -> GenerationRequest {
    password_generator::options::parse_user_input(line.to_string()).unwrap()
}

fn parse_err(line: &str) -> ParseError {
    password_generator::options::parse_user_input(line.to_string()).unwrap_err()
}

#[test]
fn empty_line_yields_defaults() {
    let r = parse_ok("");
    assert_eq!(r.password.size, 15);
    assert!(r.password.use_numbers);
    assert!(r.password.use_uppercase);
    assert!(r.password.use_special_caracters);
    assert_eq!(r.count, 1);
    assert!(!r.save_in_file);
    assert_eq!(r.file_format, FileFormat::Csv);
}

#[test]
fn default_trait_matches_defaults() {
    let r = GenerationRequest::default();
    assert_eq!(r, parse_ok(""));
    let p = Password::default();
    assert_eq!(p, r.password);
}

#[test]
fn size_aliases_set_size() {
    assert_eq!(parse_ok("size=8").password.size, 8);
    assert_eq!(parse_ok("s=9").password.size, 9);
    assert_eq!(parse_ok("sz=10").password.size, 10);
    assert_eq!(parse_ok("size=0").password.size, 0);
}

#[test]
fn last_token_wins_on_conflicting_duplicates() {
    assert_eq!(parse_ok("size=5 size=10").password.size, 10);
    assert_eq!(parse_ok("size=10 size=5").password.size, 5);
    assert_eq!(parse_ok("n=2 nop=7").count, 7);
    assert_eq!(parse_ok("un=true !n").password.use_numbers, false);
    assert_eq!(parse_ok("!n un=true").password.use_numbers, true);
    assert_eq!(parse_ok("file=txt file=csv").file_format, FileFormat::Csv);
}

#[test]
fn repeated_identical_tokens_are_idempotent() {
    assert_eq!(parse_ok("size=7 size=7"), parse_ok("size=7"));
    assert_eq!(parse_ok("!up !up"), parse_ok("!up"));
    assert_eq!(parse_ok("file=txt file=txt"), parse_ok("file=txt"));
}

#[test]
fn repeating_a_whole_line_changes_nothing() {
    for line in ["", "size=9 n=3", "file=txt !un n=30", "size=5 size=10"] {
        let doubled = format!("{} {}", line, line);
        assert_eq!(
            password_generator::options::parse_user_input(doubled),
            password_generator::options::parse_user_input(line.to_string())
        );
    }
}

#[test]
fn count_above_25_forces_file_export() {
    let r = parse_ok("n=30");
    assert_eq!(r.count, 30);
    assert!(r.save_in_file);
    let r = parse_ok("n=26");
    assert!(r.save_in_file);
    let r = parse_ok("n=25");
    assert!(!r.save_in_file);
}

#[test]
fn file_key_sets_export_and_format() {
    let r = parse_ok("file");
    assert!(r.save_in_file);
    assert_eq!(r.file_format, FileFormat::Csv);
    assert_eq!(parse_ok("file=txt").file_format, FileFormat::Txt);
    assert_eq!(parse_ok("f=txt").file_format, FileFormat::Txt);
    assert_eq!(parse_ok("file=csv").file_format, FileFormat::Csv);
    assert_eq!(parse_ok("file=anything").file_format, FileFormat::Csv);
}

#[test]
fn class_toggles() {
    let r = parse_ok("!use_numbers !use_uppercase !use_special_caracters");
    assert!(!r.password.use_numbers);
    assert!(!r.password.use_uppercase);
    assert!(!r.password.use_special_caracters);
    let r = parse_ok("un=false up=false sc=false");
    assert!(!r.password.use_numbers);
    assert!(!r.password.use_uppercase);
    assert!(!r.password.use_special_caracters);
    let r = parse_ok("num=true u=true c=true");
    assert!(r.password.use_numbers);
    assert!(r.password.use_uppercase);
    assert!(r.password.use_special_caracters);
}

#[test]
fn unknown_keys_are_ignored() {
    assert_eq!(parse_ok("foo=bar baz --x"), parse_ok(""));
    assert_eq!(parse_ok("  size=4   junk  "), parse_ok("size=4"));
}

#[test]
fn malformed_integer_values_fail() {
    assert_eq!(parse_err("n=abc"), ParseError::InvalidInt);
    assert_eq!(parse_err("n="), ParseError::InvalidInt);
    assert_eq!(parse_err("size=-3"), ParseError::InvalidInt);
    assert_eq!(parse_err("size=1.5"), ParseError::InvalidInt);
    assert_eq!(parse_err("n=2147483648"), ParseError::InvalidInt);
    assert_eq!(parse_err("sz=99999999999999999999999999"), ParseError::InvalidInt);
}

#[test]
fn malformed_boolean_values_fail() {
    assert_eq!(parse_err("un=yes"), ParseError::InvalidBool);
    assert_eq!(parse_err("up="), ParseError::InvalidBool);
    assert_eq!(parse_err("sc=TRUE"), ParseError::InvalidBool);
}

#[test]
fn integer_edge_values() {
    assert_eq!(parse_ok("n=2147483647").count, 2147483647);
    assert_eq!(parse_ok("n=-2147483648").count, -2147483648);
    assert_eq!(parse_ok("n=+12").count, 12);
    assert_eq!(parse_ok("n=-1").count, -1);
    assert_eq!(parse_ok("size=+7").password.size, 7);
}

#[test]
fn value_is_everything_after_the_first_equals() {
    assert_eq!(parse_ok("file=txt=x").file_format, FileFormat::Csv);
    assert_eq!(parse_err("n=5=6"), ParseError::InvalidInt);
    assert_eq!(parse_err("size=3=x"), ParseError::InvalidInt);
}

#[test]
fn example_scenario_single_digit_lowercase_password() {
    let r = parse_ok("size=8 use_numbers=true !use_uppercase !use_special_caracters n=1");
    assert_eq!(r.password.size, 8);
    assert!(r.password.use_numbers);
    assert!(!r.password.use_uppercase);
    assert!(!r.password.use_special_caracters);
    assert_eq!(r.count, 1);
    assert!(!password_generator::output::use_file_mode(&r));
    let pw = Password::generate(&r.password).unwrap();
    assert_eq!(pw.chars().count(), 8);
    for c in pw.chars() {
        assert!(c.is_ascii_digit() || c.is_ascii_lowercase());
    }
}
