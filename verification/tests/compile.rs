use aobscan::signature::{Signature, SignatureParseError};

#[test]
fn sig() {
    let strsig = "AE FF ?? DE";
    let mask = vec!['x', 'x', '?', 'x'];
    let sig = Signature::new(strsig, 0).unwrap();
    assert_eq!(sig.sig, strsig);
    assert_eq!(sig.mask, mask);
}

#[test]
fn test_invalid_length() {
    let signature = "123";
    let signature = Signature::new(signature, 0);
    assert!(signature.is_err());
    assert_eq!(signature.unwrap_err(), SignatureParseError::InvalidLength(3));
}

#[test]
fn test_invalid_string() {
    let signature = "zz";
    let signature = Signature::new(signature, 0);
    assert!(signature.is_err());
    assert_eq!(
        signature.unwrap_err(),
        SignatureParseError::InvalidString("zz".to_string())
    );
}

#[test]
fn test_valid_signature() {
    let signature = "12 34 56 78";
    let signature = Signature::new(signature, 0);
    assert!(signature.is_ok());
    assert_eq!(
        signature.unwrap(),
        Signature {
            first_wildcard: None,
            first_byte: Some(0),
            matching_indices: vec![0, 1, 2, 3],
            length: 4,
            pattern: vec![0x12, 0x34, 0x56, 0x78],
            mask: vec!['x', 'x', 'x', 'x'],
            sig: "12 34 56 78".to_string(),
            offset: 0,
        }
    );
}

#[test]
fn test_valid_signature_with_wildcards() {
    let signature = "12 ?? 56 78";
    let signature = Signature::new(signature, 0);
    assert!(signature.is_ok());
    assert_eq!(
        signature.unwrap(),
        Signature {
            first_wildcard: Some(1),
            first_byte: Some(0),
            matching_indices: vec![0, 2, 3],
            length: 4,
            pattern: vec![0x12, 0x00, 0x56, 0x78],
            mask: vec!['x', '?', 'x', 'x'],
            sig: "12 ?? 56 78".to_string(),
            offset: 0,
        }
    );
}

#[test]
fn test_formatting() {
    let signatures = vec![
        ("abcd", "AB CD"),
        ("a b c D", "AB CD"),
        ("a b c d 12 34 56 78", "AB CD 12 34 56 78"),
    ];
    for (sig, formatted) in signatures {
        let signature = Signature::format(sig);
        assert!(signature.is_ok());
        let signature = signature.unwrap();
        assert_eq!(signature, formatted);
    }
}

#[test]
fn test_format_odd_length() {
    let formatted = Signature::format("abc");
    assert_eq!(formatted.unwrap_err(), SignatureParseError::InvalidLength(3));
}

#[test]
fn test_format_wildcard_groups() {
    assert_eq!(Signature::format("a?cd").unwrap(), "A? CD");
    assert_eq!(Signature::format("????").unwrap(), "?? ??");
}

#[test]
fn test_invalid_length_counts_stripped_text() {
    let signature = Signature::new("1 2 3", 0);
    assert_eq!(signature.unwrap_err(), SignatureParseError::InvalidLength(3));
}

#[test]
fn test_invalid_string_keeps_group_case() {
    let signature = Signature::new("12 aG 56", 0);
    assert_eq!(
        signature.unwrap_err(),
        SignatureParseError::InvalidString("aG".to_string())
    );
}

// A group holding one `?` beside a hex digit is a whole-byte wildcard: the
// digit carries no nibble-level meaning.
#[test]
fn test_half_wildcard_group_is_full_wildcard() {
    let sig = Signature::new("1?", 0).unwrap();
    assert_eq!(sig.pattern, vec![0x00]);
    assert_eq!(sig.mask, vec!['?']);
    assert_eq!(sig.first_byte, None);
    assert_eq!(sig.first_wildcard, Some(0));
    assert_eq!(sig.sig, "1?");

    let sig = Signature::new("?1 AB", 0).unwrap();
    assert_eq!(sig.pattern, vec![0x00, 0xAB]);
    assert_eq!(sig.mask, vec!['?', 'x']);
    assert_eq!(sig.first_byte, Some(1));
    assert_eq!(sig.matching_indices, vec![1]);
}

#[test]
fn test_all_wildcards_has_no_anchor() {
    let sig = Signature::new("?? ??", 0).unwrap();
    assert_eq!(sig.first_byte, None);
    assert_eq!(sig.first_wildcard, Some(0));
    assert_eq!(sig.matching_indices, Vec::<usize>::new());
}

#[test]
fn test_empty_signature() {
    let sig = Signature::new("", 0).unwrap();
    assert_eq!(sig.length, 0);
    assert_eq!(sig.pattern, Vec::<u8>::new());
    assert_eq!(sig.sig, "");
}

#[test]
fn test_rendered_returns_canonical_text() {
    let sig = Signature::new("ae ff ?? de", 0).unwrap();
    assert_eq!(sig.sig, "AE FF ?? DE");
    assert_eq!(sig.rendered().unwrap(), sig.sig);
}

#[test]
fn test_render_roundtrip() {
    let sig = Signature::new("a b c d ?? 1f", 7).unwrap();
    let again = Signature::new(&sig.sig, 7).unwrap();
    assert_eq!(again.pattern, sig.pattern);
    assert_eq!(again.mask, sig.mask);
    assert_eq!(again, sig);
}
