use vaultura::password_generator::{generate_password, meets_requirements, PasswordConfig};

const SYMBOLS: &str = "!@#$%^&*()-_=+[]{}|;:,.<>?";

#[test]
fn test_default_config_generates_valid_password() {
    let config = PasswordConfig::default();
    let password = generate_password(&config);
    assert_eq!(password.len(), 20);
    assert!(password.chars().any(|c| c.is_ascii_uppercase()));
    assert!(password.chars().any(|c| c.is_ascii_lowercase()));
    assert!(password.chars().any(|c| c.is_ascii_digit()));
    assert!(password.chars().any(|c| SYMBOLS.contains(c)));
}

#[test]
fn test_custom_length() {
    let config = PasswordConfig { length: 8, ..Default::default() };
    let password = generate_password(&config);
    assert_eq!(password.len(), 8);
}

#[test]
fn test_only_lowercase() {
    let config = PasswordConfig {
        length: 30,
        uppercase: false,
        lowercase: true,
        digits: false,
        symbols: false,
        exclude_ambiguous: false,
    };
    let password = generate_password(&config);
    assert!(password.chars().all(|c| c.is_ascii_lowercase()));
}

#[test]
fn test_only_digits() {
    let config = PasswordConfig {
        length: 30,
        uppercase: false,
        lowercase: false,
        digits: true,
        symbols: false,
        exclude_ambiguous: false,
    };
    let password = generate_password(&config);
    assert!(password.chars().all(|c| c.is_ascii_digit()));
}

#[test]
fn test_exclude_ambiguous() {
    let config = PasswordConfig {
        length: 100,
        uppercase: true,
        lowercase: true,
        digits: true,
        symbols: false,
        exclude_ambiguous: true,
    };
    let password = generate_password(&config);
    assert!(!password.contains('0'));
    assert!(!password.contains('O'));
    assert!(!password.contains('1'));
    assert!(!password.contains('l'));
    assert!(!password.contains('I'));
}

#[test]
fn test_uniqueness() {
    let config = PasswordConfig::default();
    let p1 = generate_password(&config);
    let p2 = generate_password(&config);
    assert_ne!(p1, p2);
}

#[test]
fn test_meets_requirements_checks_classes() {
    let config = PasswordConfig::default();
    assert!(meets_requirements("Aa2!Aa2!Aa2!", &config));
    assert!(!meets_requirements("aaaaaaaa", &config));
}
