use aobscan::scanner::{check_mask, find_signature, AobScanner};
use aobscan::signature::Signature;

#[test]
fn scan_last() {
    let strsig = "FF";
    let bytes = [0x0, 0xFF];
    let sig = Signature::new(strsig, 0).unwrap();
    let find = find_signature(&bytes, &sig).unwrap();
    assert_eq!(find, 1);
}

#[test]
fn scan_first() {
    let strsig = "FF";
    let bytes = [0xFF, 0x0];
    let sig = Signature::new(strsig, 0).unwrap();
    let find = find_signature(&bytes, &sig).unwrap();
    assert_eq!(find, 0);
}

#[test]
fn test_check_mask() {
    let search_region = &[0x0B, 0x0C, 0x0D, 0x0E, 0x0F];
    let signature = Signature::new("0B ?? 0D", 0);
    assert!(signature.is_ok());
    let signature = signature.unwrap();
    let check = check_mask(search_region, &signature);
    assert!(check);
}

#[test]
fn test_find_signature() {
    let search_region = &[
        0x00, 0x0B, 0x01, 0x02, 0x03, 0x04, 0x05, 0x06, 0x07, 0x08, 0x09, 0x0A, 0x0B, 0x0C, 0x0D,
        0x0E, 0x0F,
    ];
    let signature = Signature::new("0B ?? 0D", 0);
    assert!(signature.is_ok());
    let signature = signature.unwrap();
    let find = find_signature(search_region, &signature);
    assert!(find.is_some());
    let find = find.unwrap();
    assert_eq!(find, 12);
}

#[test]
fn test_signature_not_found() {
    let search_region = &[
        0x00, 0x01, 0x02, 0x03, 0x04, 0x05, 0x06, 0x07, 0x08, 0x09, 0x0A, 0x0B, 0x0C, 0x0D, 0x0E,
        0x0F,
    ];
    let signature = Signature::new("FF FF", 0);
    assert!(signature.is_ok());
    let signature = signature.unwrap();
    let find = find_signature(search_region, &signature);
    assert!(find.is_none());
}

#[test]
fn test_signature_exact() {
    let search_region = &[
        0x00, 0x01, 0x02, 0x03, 0x04, 0x05, 0x06, 0x07, 0x08, 0x09, 0x0A, 0x0B, 0x0C, 0x0D, 0x0E,
        0x0F,
    ];
    let signature = Signature::new("00 01 02 03 04 05 06 07 08 09 0A 0B 0C 0D 0E 0F", 0);
    assert!(signature.is_ok());
    let signature = signature.unwrap();
    let find = find_signature(search_region, &signature);
    assert!(find.is_some());
    let find = find.unwrap();
    assert_eq!(find, 0);
}

#[test]
fn test_signature_exact_except_last() {
    let search_region = &[
        0x00, 0x01, 0x02, 0x03, 0x04, 0x05, 0x06, 0x07, 0x08, 0x09, 0x0A, 0x0B, 0x0C, 0x0D, 0x0E,
        0x0F,
    ];
    let signature = Signature::new("00 01 02 03 04 05 06 07 08 09 0A 0B 0C 0D 0E FF", 0);
    assert!(signature.is_ok());
    let signature = signature.unwrap();
    let find = find_signature(search_region, &signature);
    assert!(find.is_none());
}

#[test]
fn test_find_signature_without_decoy() {
    let search_region = &[
        0x00, 0x01, 0x02, 0x03, 0x04, 0x05, 0x06, 0x07, 0x08, 0x09, 0x0A, 0x0B, 0x0C, 0x0D, 0x0E,
        0x0F,
    ];
    let signature = Signature::new("0B ?? 0D", 0).unwrap();
    assert_eq!(find_signature(search_region, &signature), Some(11));
}

#[test]
fn test_offset_additivity() {
    let search_region = &[
        0x00, 0x01, 0x02, 0x03, 0x04, 0x05, 0x06, 0x07, 0x08, 0x09, 0x0A, 0x0B, 0x0C, 0x0D, 0x0E,
        0x0F,
    ];
    let plain = Signature::new("0B ?? 0D", 0).unwrap();
    let shifted = Signature::new("0B ?? 0D", 3).unwrap();
    let raw = find_signature(search_region, &plain).unwrap();
    assert_eq!(raw, 11);
    assert_eq!(find_signature(search_region, &shifted), Some(raw + 3));
}

#[test]
fn test_scan_idempotent() {
    let search_region = &[0x00, 0xFF, 0x00, 0xFF];
    let signature = Signature::new("FF ??", 0).unwrap();
    let first = find_signature(search_region, &signature);
    let second = find_signature(search_region, &signature);
    let third = find_signature(search_region, &signature);
    assert_eq!(first, Some(1));
    assert_eq!(second, first);
    assert_eq!(third, first);
}

// The anchor is the first concrete byte; a leading wildcard shifts the
// anchor check without losing matches whose first byte is arbitrary.
#[test]
fn test_leading_wildcard_anchor() {
    let signature = Signature::new("?? AA", 0).unwrap();
    assert_eq!(signature.first_byte, Some(1));
    assert_eq!(find_signature(&[0xBB, 0xAA], &signature), Some(0));
    assert_eq!(
        find_signature(&[0xAA, 0xBB, 0xCC, 0xAA], &signature),
        Some(2)
    );
}

#[test]
fn test_buffer_shorter_than_pattern() {
    let signature = Signature::new("FF FF", 0).unwrap();
    assert_eq!(find_signature(&[0xFF], &signature), None);
    assert_eq!(find_signature(&[], &signature), None);
}

#[test]
fn test_scanner_trait_impls() {
    let signature = Signature::new("0C 0D", 0).unwrap();
    let bytes: Vec<u8> = vec![0x0A, 0x0B, 0x0C, 0x0D];
    assert_eq!(bytes.find_signature(&signature), Some(2));
    let slice: &[u8] = &bytes;
    assert_eq!(slice.find_signature(&signature), Some(2));
    assert_eq!(bytes[1..].find_signature(&signature), Some(1));
}
