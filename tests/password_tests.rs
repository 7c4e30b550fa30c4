use securevault::keyring::{generate_password_custom, generate_password_preset, generate_pronounceable};
use securevault::password::{generate_password, generate_pronounceable_password, PasswordRules};

const SYMBOLS: &str = "!@#$%^&*()_+-=[]{}|;:,.<>?";
const AMBIGUOUS: &str = "IOilo01";

fn rules(length: usize, u: bool, l: bool, d: bool, s: bool, x: bool, r: bool) -> PasswordRules {
    PasswordRules {
        length,
        use_uppercase: u,
        use_lowercase: l,
        use_digits: d,
        use_symbols: s,
        exclude_ambiguous: x,
        require_each_type: r,
    }
}

#[test]
fn presets_have_their_settings() {
    let s = PasswordRules::safe();
    assert_eq!(s.length, 20);
    assert!(s.exclude_ambiguous && s.require_each_type && s.use_symbols);
    let b = PasswordRules::balanced();
    assert_eq!(b.length, 16);
    assert!(!b.exclude_ambiguous && !b.require_each_type && b.use_symbols);
    let f = PasswordRules::fast();
    assert_eq!(f.length, 12);
    assert!(!f.use_symbols && f.use_digits);
    let d = PasswordRules::default();
    assert_eq!(d.length, 16);
    assert!(d.exclude_ambiguous && d.require_each_type);
    assert_eq!(PasswordRules::new(30).length, 30);
}

#[test]
fn safe_preset_scenario() {
    for _ in 0..50 {
        let p = generate_password_preset("safe");
        assert_eq!(p.chars().count(), 20);
        assert!(p.chars().any(|c| c.is_ascii_uppercase()));
        assert!(p.chars().any(|c| c.is_ascii_lowercase()));
        assert!(p.chars().any(|c| c.is_ascii_digit()));
        assert!(p.chars().any(|c| SYMBOLS.contains(c)));
        assert!(!p.chars().any(|c| AMBIGUOUS.contains(c)));
    }
}

#[test]
fn other_presets_lengths() {
    assert_eq!(generate_password_preset("balanced").chars().count(), 16);
    let f = generate_password_preset("fast");
    assert_eq!(f.chars().count(), 12);
    assert!(f.chars().all(|c| c.is_ascii_alphanumeric()));
    assert_eq!(generate_password_preset("anything").chars().count(), 16);
}

#[test]
fn length_and_pools_are_respected() {
    for len in [0usize, 1, 5, 33] {
        let p = generate_password(&rules(len, false, true, true, false, false, false));
        assert_eq!(p.chars().count(), len);
        assert!(p.chars().all(|c| c.is_ascii_lowercase() || c.is_ascii_digit()));
    }
}

#[test]
fn no_pool_gives_fallback() {
    assert_eq!(generate_password(&rules(10, false, false, false, false, true, true)), "password");
    assert_eq!(generate_password_custom(10, false, false, false, false, false, false), "password");
}

#[test]
fn each_type_required_on_short_length() {
    for _ in 0..100 {
        let p = generate_password(&rules(4, true, true, true, true, false, true));
        assert_eq!(p.chars().count(), 4);
        assert!(p.chars().any(|c| c.is_ascii_uppercase()));
        assert!(p.chars().any(|c| c.is_ascii_lowercase()));
        assert!(p.chars().any(|c| c.is_ascii_digit()));
        assert!(p.chars().any(|c| SYMBOLS.contains(c)));
    }
}

#[test]
fn over_seeded_is_cut_to_length() {
    let p = generate_password(&rules(2, true, true, true, true, false, true));
    assert_eq!(p.chars().count(), 2);
}

#[test]
fn ambiguous_characters_excluded() {
    for _ in 0..50 {
        let p = generate_password(&rules(200, true, true, true, false, true, false));
        assert!(!p.chars().any(|c| AMBIGUOUS.contains(c)));
    }
}

#[test]
fn pronounceable_alternates() {
    let p = generate_pronounceable(8);
    assert_eq!(p.chars().count(), 8);
    for (i, c) in p.chars().enumerate() {
        if i % 2 == 0 {
            assert!("bcdfghjklmnpqrstvwxyz".contains(c));
        } else {
            assert!("aeiou".contains(c));
        }
    }
    assert_eq!(generate_pronounceable_password(0), "");
    assert_eq!(generate_pronounceable_password(7).len(), 7);
}
