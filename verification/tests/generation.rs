use password_generator::generator::generate_batch;
use password_generator::options::Password;

const FULL_ALPHABET: &str =
    "0123456789ABCDEFGHIJKLMNOPQRSTUVWXYZ!@#$%^&*()_+abcdefghijklmnopqrstuvwxyz";

#[test]
fn output_length_equals_size() {
    for size in [0usize, 1, 8, 15, 64] {
        let p = Password { size, ..Password::default() };
        let pw = Password::generate(&p).unwrap();
        assert_eq!(pw.chars().count(), size);
    }
}

#[test]
fn output_characters_come_from_the_composed_alphabet() {
    let p = Password::default();
    for _ in 0..20 {
        let pw = Password::generate(&p).unwrap();
        for c in pw.chars() {
            assert!(FULL_ALPHABET.contains(c));
        }
    }
}

#[test]
fn all_classes_disabled_yields_only_lowercase() {
    let p = Password {
        size: 200,
        use_numbers: false,
        use_uppercase: false,
        use_special_caracters: false,
    };
    let pw = Password::generate(&p).unwrap();
    assert_eq!(pw.chars().count(), 200);
    for c in pw.chars() {
        assert!(c.is_ascii_lowercase());
    }
}

#[test]
fn disabled_classes_never_appear() {
    let p = Password { size: 300, use_uppercase: false, ..Password::default() };
    let pw = Password::generate(&p).unwrap();
    for c in pw.chars() {
        assert!(!c.is_ascii_uppercase());
    }
}

#[test]
fn batch_has_one_password_per_count() {
    let p = Password::default();
    let v = generate_batch(&p, 5).unwrap();
    assert_eq!(v.len(), 5);
    for pw in &v {
        assert_eq!(pw.chars().count(), 15);
    }
    assert_eq!(generate_batch(&p, 0).unwrap().len(), 0);
    assert_eq!(generate_batch(&p, -4).unwrap().len(), 0);
}
