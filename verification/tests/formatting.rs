use password_generator::generator::generate_batch;
use password_generator::options::FileFormat;
use password_generator::output::{
    csv_header_line, export_content, export_filename, format_console_entry, format_entry,
    u64_to_string, use_file_mode,
};

#[test]
fn decimal_rendering() {
    assert_eq!(u64_to_string(0).as_str(), "0");
    assert_eq!(u64_to_string(7).as_str(), "7");
    assert_eq!(u64_to_string(10).as_str(), "10");
    assert_eq!(u64_to_string(1234567890).as_str(), "1234567890");
    assert_eq!(u64_to_string(u64::MAX).as_str(), "18446744073709551615");
}

#[test]
fn csv_entry_format() {
    let s = format_entry(0, &"abc".to_string(), &FileFormat::Csv);
    assert_eq!(s.as_str(), "1,abc\n");
    let s = format_entry(11, &"x".to_string(), &FileFormat::Csv);
    assert_eq!(s.as_str(), "12,x\n");
}

#[test]
fn txt_entry_format() {
    let s = format_entry(0, &"abc".to_string(), &FileFormat::Txt);
    assert_eq!(s.as_str(), "\nPassword 1 :\nabc\n");
}

#[test]
fn console_entry_format() {
    let s = format_console_entry(0, 1, &"abc".to_string());
    assert_eq!(s.as_str(), "\nYour password is :\n\nabc\n");
    let s = format_console_entry(1, 3, &"abc".to_string());
    assert_eq!(s.as_str(), "\nPassword 2 :\n\nabc\n");
}

#[test]
fn csv_header() {
    assert_eq!(csv_header_line().as_str(), "Id,Password\n");
}

#[test]
fn filename_from_the_system_clock() {
    let secs = password_generator::output::get_sys_time_in_secs();
    assert!(secs > 0);
    let name = password_generator::output::export_filename(secs, &FileFormat::Txt);
    assert!(name.starts_with("passwords_"));
    assert!(name.ends_with(".txt"));
}

#[test]
fn filenames_carry_timestamp_and_extension() {
    assert_eq!(export_filename(1700000000, &FileFormat::Csv).as_str(), "passwords_1700000000.csv");
    assert_eq!(export_filename(0, &FileFormat::Txt).as_str(), "passwords_0.txt");
}

#[test]
fn csv_export_content_lines() {
    let pws = vec!["aaaa".to_string(), "bbbb".to_string(), "cccc".to_string()];
    let content = export_content(&pws, &FileFormat::Csv);
    let lines: Vec<&str> = content.split('\n').collect();
    assert_eq!(lines[0], "Id,Password");
    assert_eq!(lines[1], "1,aaaa");
    assert_eq!(lines[2], "2,bbbb");
    assert_eq!(lines[3], "3,cccc");
    assert_eq!(lines[4], "");
    assert_eq!(lines.len(), 5);
}

#[test]
fn txt_export_counts_password_blocks() {
    let pws = vec!["aZ$x".to_string(), "qqqq".to_string()];
    let content = export_content(&pws, &FileFormat::Txt);
    assert_eq!(content.matches("Password ").count(), 2);
    assert_eq!(content.as_str(), "\nPassword 1 :\naZ$x\n\nPassword 2 :\nqqqq\n");
}

#[test]
fn generated_csv_export_has_header_plus_count_lines() {
    let r = password_generator::options::parse_user_input("n=30 size=10".to_string()).unwrap();
    assert_eq!(r.count, 30);
    assert!(r.save_in_file);
    assert_eq!(r.file_format, FileFormat::Csv);
    assert!(use_file_mode(&r));
    let pws = generate_batch(&r.password, r.count).unwrap();
    assert_eq!(pws.len(), 30);
    let content = export_content(&pws, &r.file_format);
    let lines: Vec<&str> = content.split('\n').collect();
    assert_eq!(lines.len(), 32);
    assert_eq!(lines[0], "Id,Password");
    for k in 1..=30usize {
        let line = lines[k];
        let expect_prefix = format!("{},", k);
        assert!(line.starts_with(&expect_prefix));
        let pw = &line[expect_prefix.len()..];
        assert_eq!(pw.chars().count(), 10);
        for c in pw.chars() {
            assert!(
                "0123456789ABCDEFGHIJKLMNOPQRSTUVWXYZ!@#$%^&*()_+abcdefghijklmnopqrstuvwxyz"
                    .contains(c)
            );
        }
    }
    assert_eq!(lines[31], "");
}

#[test]
fn txt_export_of_generated_passwords_counts_blocks() {
    let r = password_generator::options::parse_user_input("n=26 file=txt".to_string()).unwrap();
    assert!(use_file_mode(&r));
    assert_eq!(r.file_format, FileFormat::Txt);
    let pws = generate_batch(&r.password, r.count).unwrap();
    let content = export_content(&pws, &r.file_format);
    assert_eq!(content.matches("Password ").count(), 26);
}

#[test]
fn single_password_routes_to_console() {
    let r = password_generator::options::parse_user_input("file=txt n=1".to_string()).unwrap();
    assert!(r.save_in_file);
    assert_eq!(r.count, 1);
    assert!(!use_file_mode(&r));
}
