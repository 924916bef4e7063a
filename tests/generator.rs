use passk::error::VaultError;
use passk::generator::{alphabet_size, charset_symbols, dedup_chars, generate_password, password_from_indices, CharsetKind};

#[test]
fn alphanumeric_password_of_sixteen() {
    let p = generate_password(16, CharsetKind::Alphanum, "").unwrap();
    assert_eq!(p.chars().count(), 16);
    assert!(p.chars().all(|c| c.is_ascii_alphanumeric()));
    let size = alphabet_size(CharsetKind::Alphanum, "");
    assert_eq!(size, 62);
    let bits = 16.0 * (size as f64).log2();
    assert!((bits - 95.27).abs() < 0.01);
}

#[test]
fn zero_length_is_refused() {
    assert!(matches!(generate_password(0, CharsetKind::Alphanum, ""), Err(VaultError::GeneratorRefused)));
}

#[test]
fn one_symbol_alphabet_is_refused() {
    assert!(matches!(generate_password(8, CharsetKind::Custom, "aaaa"), Err(VaultError::GeneratorRefused)));
    assert!(matches!(generate_password(8, CharsetKind::Custom, ""), Err(VaultError::GeneratorRefused)));
}

#[test]
fn alphabet_sizes() {
    assert_eq!(alphabet_size(CharsetKind::Alpha, ""), 52);
    assert_eq!(alphabet_size(CharsetKind::Base86, ""), 86);
    assert_eq!(alphabet_size(CharsetKind::Custom, "abcabc✓✓"), 4);
    let base86 = charset_symbols(CharsetKind::Base86, "");
    assert!(base86.iter().all(|c| c.is_ascii_graphic()));
    assert!(!base86.contains(&' '));
}

#[test]
fn custom_alphabet_keeps_first_occurrences() {
    assert_eq!(dedup_chars("banana"), vec!['b', 'a', 'n']);
    let p = generate_password(40, CharsetKind::Custom, "xyzzy").unwrap();
    assert_eq!(p.chars().count(), 40);
    assert!(p.chars().all(|c| c == 'x' || c == 'y' || c == 'z'));
}

#[test]
fn indices_select_symbols() {
    let symbols = vec!['a', 'b', '✓'];
    assert_eq!(password_from_indices(&symbols, &vec![2, 0, 0, 1]), "✓aab");
}

#[test]
fn draws_cover_the_alphabet_evenly() {
    let p = generate_password(62_000, CharsetKind::Alphanum, "").unwrap();
    let symbols = charset_symbols(CharsetKind::Alphanum, "");
    for s in symbols {
        let n = p.chars().filter(|c| *c == s).count();
        assert!(n > 700 && n < 1300, "{s}: {n}");
    }
}

#[test]
fn charset_names() {
    assert_eq!(CharsetKind::Alphanum.name(), "Alphanumeric");
    assert_eq!(CharsetKind::Alpha.name(), "Alphabet");
    assert_eq!(CharsetKind::Base86.name(), "Base86");
    assert_eq!(CharsetKind::Custom.name(), "Custom");
    assert_eq!(CharsetKind::try_from_id(2), Some(CharsetKind::Base86));
    assert_eq!(CharsetKind::try_from_id(4), None);
}
